//! Integer operands: `#` and a number.

use crate::assembler::scanner::{number_syntax, sigil_number};
use crate::assembler::{agrees, Expected, ParseError, Token};
use vstd::prelude::*;

verus! {

/// The byte `#`.
pub const INTEGER_SIGIL: u8 = 0x23;

/// The largest integer that can be written.
pub const INTEGER_LIMIT: u32 = 0x7fff_ffff;

/// An integer operand: optional white space, `#`, at once one or more digits
/// that spell a number no larger than 2147483647, and optional white space.
pub open spec fn integer_operand_syntax(input: Seq<u8>) -> Result<(Token, int), ParseError> {
    match number_syntax(
        input,
        INTEGER_SIGIL,
        INTEGER_LIMIT as int,
        Expected::IntegerSigil,
        Expected::IntegerValue,
    ) {
        Ok((number, taken)) => Ok((Token::IntegerOperand { value: number as i32 }, taken)),
        Err(error) => Err(error),
    }
}

/// Reads an integer operand.
pub fn integer_operand<'a>(input: &'a [u8]) -> (result: Result<(&'a [u8], Token), ParseError>)
    ensures
        agrees(input@, result, integer_operand_syntax(input@)),
{
    match sigil_number(
        input,
        INTEGER_SIGIL,
        INTEGER_LIMIT,
        Expected::IntegerSigil,
        Expected::IntegerValue,
    ) {
        Ok((rest, number)) => Ok((rest, Token::IntegerOperand { value: number as i32 })),
        Err(error) => Err(error),
    }
}

} // verus!
