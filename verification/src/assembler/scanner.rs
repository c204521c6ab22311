//! The smallest pieces of the grammar: runs of white space and of digits,
//! fixed words, and the number that a run of digits spells.

use crate::assembler::{Expected, ParseError};
use vstd::prelude::*;
use vstd::slice::slice_subrange;

verus! {

/// Space, tab, carriage return or line feed.
pub open spec fn is_whitespace(byte: u8) -> bool {
    byte == 0x20 || byte == 0x09 || byte == 0x0d || byte == 0x0a
}

/// One of `0` to `9`.
pub open spec fn is_digit(byte: u8) -> bool {
    0x30 <= byte <= 0x39
}

/// Whether the white space at the start of `input` is exactly its first
/// `count` bytes.
pub open spec fn leading_whitespace(input: Seq<u8>, count: int) -> bool {
    &&& 0 <= count <= input.len()
    &&& forall|i: int| 0 <= i < count ==> is_whitespace(#[trigger] input[i])
    &&& count < input.len() ==> !is_whitespace(input[count])
}

/// Whether the digits at the start of `input` are exactly its first `count`
/// bytes.
pub open spec fn leading_digits(input: Seq<u8>, count: int) -> bool {
    &&& 0 <= count <= input.len()
    &&& forall|i: int| 0 <= i < count ==> is_digit(#[trigger] input[i])
    &&& count < input.len() ==> !is_digit(input[count])
}

/// How many bytes of white space `input` begins with.
pub open spec fn whitespace_run(input: Seq<u8>) -> int
    decreases input.len(),
{
    if input.len() > 0 && is_whitespace(input[0]) {
        1 + whitespace_run(input.skip(1))
    } else {
        0
    }
}

/// How many digits `input` begins with.
pub open spec fn digit_run(input: Seq<u8>) -> int
    decreases input.len(),
{
    if input.len() > 0 && is_digit(input[0]) {
        1 + digit_run(input.skip(1))
    } else {
        0
    }
}

/// The number that a sequence of digits spells in base ten.
pub open spec fn decimal_value(digits: Seq<u8>) -> int
    decreases digits.len(),
{
    if digits.len() == 0 {
        0
    } else {
        decimal_value(digits.drop_last()) * 10 + (digits.last() - 0x30)
    }
}

/// How many bytes `input` and `word` have in common at their start.
pub open spec fn common_prefix(input: Seq<u8>, word: Seq<u8>) -> int
    decreases word.len(),
{
    if word.len() > 0 && input.len() > 0 && input[0] == word[0] {
        1 + common_prefix(input.skip(1), word.skip(1))
    } else {
        0
    }
}

/// The white space that an input begins with is counted by
/// [`whitespace_run`].
pub proof fn lemma_whitespace_run(input: Seq<u8>, count: int)
    requires
        leading_whitespace(input, count),
    ensures
        whitespace_run(input) == count,
    decreases input.len(),
{
    if count > 0 {
        assert(is_whitespace(input[0]));
        let rest = input.skip(1);
        assert forall|i: int| 0 <= i < count - 1 implies is_whitespace(#[trigger] rest[i]) by {
            assert(rest[i] == input[i + 1]);
        }
        lemma_whitespace_run(rest, count - 1);
    }
}

/// The digits that an input begins with are counted by [`digit_run`].
pub proof fn lemma_digit_run(input: Seq<u8>, count: int)
    requires
        leading_digits(input, count),
    ensures
        digit_run(input) == count,
    decreases input.len(),
{
    if count > 0 {
        assert(is_digit(input[0]));
        let rest = input.skip(1);
        assert forall|i: int| 0 <= i < count - 1 implies is_digit(#[trigger] rest[i]) by {
            assert(rest[i] == input[i + 1]);
        }
        lemma_digit_run(rest, count - 1);
    }
}

/// A run of white space or of digits lies within the input.
pub proof fn lemma_runs_bounded(input: Seq<u8>)
    ensures
        0 <= whitespace_run(input) <= input.len(),
        0 <= digit_run(input) <= input.len(),
    decreases input.len(),
{
    if input.len() > 0 {
        lemma_runs_bounded(input.skip(1));
    }
}

/// `nom::sp` on a complete input: the input is split after the white space
/// (space, tab, carriage return, line feed) that it begins with, be it none
/// or all of it. The call never fails. Returned is the number of bytes of
/// white space.
#[verifier::external_body]
fn whitespace_span(input: &[u8]) -> (span: Option<usize>)
    ensures
        span is Some,
        leading_whitespace(input@, span.unwrap() as int),
{
    match nom::sp(nom::types::CompleteByteSlice(input)) {
        Ok((_, spaces)) => Some(spaces.len()),
        Err(_) => None,
    }
}

/// `nom::digit` on a complete input: the input is split after the digits
/// `0` to `9` that it begins with, and the call fails where it begins with
/// none. Returned is the number of digits, or `None` on failure.
#[verifier::external_body]
fn digit_span(input: &[u8]) -> (span: Option<usize>)
    ensures
        match span {
            Some(count) => count > 0 && leading_digits(input@, count as int),
            None => leading_digits(input@, 0),
        },
{
    match nom::digit(nom::types::CompleteByteSlice(input)) {
        Ok((_, digits)) => Some(digits.len()),
        Err(_) => None,
    }
}

/// Drops the white space that `input` begins with.
pub fn skip_whitespace(input: &[u8]) -> (rest: &[u8])
    ensures
        rest@ == input@.skip(whitespace_run(input@)),
        0 <= whitespace_run(input@) <= input@.len(),
{
    let count = whitespace_span(input).unwrap();
    proof {
        lemma_whitespace_run(input@, count as int);
    }
    slice_subrange(input, count, input.len())
}

/// Splits `input` after the digits that it begins with: the digits, then the
/// rest.
pub fn take_digits(input: &[u8]) -> (parts: (&[u8], &[u8]))
    ensures
        0 <= digit_run(input@) <= input@.len(),
        parts.0@ == input@.take(digit_run(input@)),
        parts.1@ == input@.skip(digit_run(input@)),
        forall|i: int| 0 <= i < parts.0@.len() ==> is_digit(#[trigger] parts.0@[i]),
{
    let count = match digit_span(input) {
        Some(count) => count,
        None => 0,
    };
    proof {
        lemma_digit_run(input@, count as int);
    }
    (slice_subrange(input, 0, count), slice_subrange(input, count, input.len()))
}

/// A sequence of digits spells a number that is not negative.
pub proof fn lemma_decimal_value_nonnegative(digits: Seq<u8>)
    requires
        forall|i: int| 0 <= i < digits.len() ==> is_digit(#[trigger] digits[i]),
    ensures
        0 <= decimal_value(digits),
    decreases digits.len(),
{
    if digits.len() > 0 {
        assert(is_digit(digits.last()));
        lemma_decimal_value_nonnegative(digits.drop_last());
    }
}

/// A sequence of digits spells a number that is not smaller than the number
/// that any of its beginnings spells.
pub proof fn lemma_decimal_value_grows(digits: Seq<u8>, count: int)
    requires
        0 <= count <= digits.len(),
        forall|i: int| 0 <= i < digits.len() ==> is_digit(#[trigger] digits[i]),
    ensures
        0 <= decimal_value(digits.take(count)) <= decimal_value(digits),
    decreases digits.len() - count,
{
    lemma_decimal_value_nonnegative(digits.take(count));
    if count == digits.len() {
        assert(digits.take(count) =~= digits);
    } else {
        lemma_decimal_value_grows(digits, count + 1);
        let longer = digits.take(count + 1);
        assert(longer.drop_last() =~= digits.take(count));
        assert(is_digit(longer.last()));
    }
}

/// The number that `digits` spell, unless it is larger than `limit`.
pub fn decimal(digits: &[u8], limit: u32) -> (number: Option<u32>)
    requires
        forall|i: int| 0 <= i < digits@.len() ==> is_digit(#[trigger] digits@[i]),
    ensures
        0 <= decimal_value(digits@),
        number == (if decimal_value(digits@) <= limit {
            Some(decimal_value(digits@) as u32)
        } else {
            None
        }),
{
    proof {
        lemma_decimal_value_nonnegative(digits@);
    }
    let mut value: u64 = 0;
    let mut i: usize = 0;
    while i < digits.len()
        invariant
            i <= digits.len(),
            value == decimal_value(digits@.take(i as int)),
            value <= limit,
            forall|i: int| 0 <= i < digits@.len() ==> is_digit(#[trigger] digits@[i]),
        decreases digits.len() - i,
    {
        let digit = (digits[i] - 0x30) as u64;
        proof {
            assert(digits@.take(i + 1).drop_last() =~= digits@.take(i as int));
            assert(digits@.take(i + 1).last() == digits@[i as int]);
        }
        value = value * 10 + digit;
        i += 1;
        if value > limit as u64 {
            proof {
                lemma_decimal_value_grows(digits@, i as int);
            }
            return None;
        }
    }
    assert(digits@.take(i as int) =~= digits@);
    Some(value as u32)
}

/// How many bytes `input` and `word` have in common at their start.
pub fn match_prefix(input: &[u8], word: &[u8]) -> (count: usize)
    ensures
        count == common_prefix(input@, word@),
        count <= input@.len(),
        count <= word@.len(),
{
    let mut count: usize = 0;
    assert(input@.skip(0) =~= input@ && word@.skip(0) =~= word@);
    while count < word.len() && count < input.len() && input[count] == word[count]
        invariant
            count <= input.len(),
            count <= word.len(),
            common_prefix(input@, word@) == count + common_prefix(
                input@.skip(count as int),
                word@.skip(count as int),
            ),
        decreases word.len() - count,
    {
        proof {
            assert(input@.skip(count as int).skip(1) =~= input@.skip(count + 1));
            assert(word@.skip(count as int).skip(1) =~= word@.skip(count + 1));
        }
        count += 1;
    }
    count
}

/// The form that a register and an integer operand share: white space, the
/// sigil, at once one or more digits that spell a number no larger than
/// `limit`, and white space again. `Ok` holds the number and how many bytes
/// the whole took.
pub open spec fn number_syntax(
    input: Seq<u8>,
    sigil: u8,
    limit: int,
    sigil_expected: Expected,
    number_expected: Expected,
) -> Result<(int, int), ParseError> {
    let start = whitespace_run(input);
    let digits = digit_run(input.skip(start + 1));
    let end = start + 1 + digits;
    let value = decimal_value(input.subrange(start + 1, end));
    if start >= input.len() || input[start] != sigil {
        Err(ParseError::at(input, start, sigil_expected))
    } else if digits == 0 {
        Err(ParseError::at(input, start + 1, Expected::Digit))
    } else if value > limit {
        Err(ParseError::at(input, start + 1, number_expected))
    } else {
        Ok((value, end + whitespace_run(input.skip(end))))
    }
}

/// A number behind a sigil takes at least the sigil and one digit, and no
/// more than there is; the number lies between zero and the limit.
pub proof fn lemma_number_syntax_taken(
    input: Seq<u8>,
    sigil: u8,
    limit: int,
    sigil_expected: Expected,
    number_expected: Expected,
)
    ensures
        match number_syntax(input, sigil, limit, sigil_expected, number_expected) {
            Ok((number, taken)) => 2 <= taken <= input.len() && 0 <= number <= limit,
            Err(error) => error.position <= input.len(),
        },
{
    let start = whitespace_run(input);
    lemma_runs_bounded(input);
    if start < input.len() {
        let behind_sigil = input.skip(start + 1);
        lemma_runs_bounded(behind_sigil);
        let digits = digit_run(behind_sigil);
        let end = start + 1 + digits;
        lemma_runs_bounded(input.skip(end));
        lemma_digit_run_digits(behind_sigil);
        assert(input.subrange(start + 1, end) =~= behind_sigil.take(digits));
        lemma_decimal_value_nonnegative(input.subrange(start + 1, end));
    }
}

/// The bytes of a run of digits are digits.
pub proof fn lemma_digit_run_digits(input: Seq<u8>)
    ensures
        forall|i: int| 0 <= i < digit_run(input) ==> is_digit(#[trigger] input[i]),
    decreases input.len(),
{
    if input.len() > 0 && is_digit(input[0]) {
        let rest = input.skip(1);
        lemma_digit_run_digits(rest);
        lemma_runs_bounded(rest);
        assert forall|i: int| 0 <= i < digit_run(input) implies is_digit(#[trigger] input[i]) by {
            if i > 0 {
                assert(input[i] == rest[i - 1]);
            }
        }
    }
}

/// What two sequences have in common at their start is no longer than
/// either.
pub proof fn lemma_common_prefix_bounded(input: Seq<u8>, word: Seq<u8>)
    ensures
        0 <= common_prefix(input, word) <= input.len(),
        common_prefix(input, word) <= word.len(),
    decreases word.len(),
{
    if word.len() > 0 && input.len() > 0 && input[0] == word[0] {
        lemma_common_prefix_bounded(input.skip(1), word.skip(1));
    }
}

/// Reads a number behind a sigil, as [`number_syntax`] describes it, and
/// returns the rest of the input with it.
pub fn sigil_number<'a>(
    input: &'a [u8],
    sigil: u8,
    limit: u32,
    sigil_expected: Expected,
    number_expected: Expected,
) -> (result: Result<(&'a [u8], u32), ParseError>)
    ensures
        match result {
            Ok((rest, number)) => {
                &&& rest@.len() <= input@.len()
                &&& rest@ == input@.skip(input@.len() - rest@.len())
                &&& number_syntax(input@, sigil, limit as int, sigil_expected, number_expected)
                    == Ok::<(int, int), ParseError>(
                    (number as int, input@.len() - rest@.len()),
                )
            },
            Err(error) => {
                &&& error.position <= input@.len()
                &&& number_syntax(input@, sigil, limit as int, sigil_expected, number_expected)
                    == Err::<(int, int), ParseError>(error)
            },
        },
{
    let after_space = skip_whitespace(input);
    let start = input.len() - after_space.len();
    if after_space.len() == 0 || after_space[0] != sigil {
        return Err(ParseError::new(input, start, sigil_expected));
    }
    let behind_sigil = slice_subrange(after_space, 1, after_space.len());
    assert(behind_sigil@ =~= input@.skip(start + 1));
    let (digits, after_digits) = take_digits(behind_sigil);
    let ghost end = start + 1 + digits@.len();
    assert(digits@ =~= input@.subrange(start + 1, end));
    assert(after_digits@ =~= input@.skip(end));
    if digits.len() == 0 {
        return Err(ParseError::new(input, start + 1, Expected::Digit));
    }
    match decimal(digits, limit) {
        None => Err(ParseError::new(input, start + 1, number_expected)),
        Some(number) => {
            let rest = skip_whitespace(after_digits);
            assert(rest@ =~= input@.skip(end + whitespace_run(input@.skip(end))));
            Ok((rest, number))
        },
    }
}

} // verus!
