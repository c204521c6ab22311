//! Registers: `$` and a number.

use crate::assembler::scanner::{number_syntax, sigil_number};
use crate::assembler::{agrees, Expected, ParseError, Token};
use vstd::prelude::*;

verus! {

/// The byte `$`.
pub const REGISTER_SIGIL: u8 = 0x24;

/// The largest register number that can be written.
pub const REGISTER_LIMIT: u32 = 255;

/// A register: optional white space, `$`, at once one or more digits that
/// spell a number no larger than 255, and optional white space. Whether the
/// machine has a register of that number is not asked here.
pub open spec fn register_syntax(input: Seq<u8>) -> Result<(Token, int), ParseError> {
    match number_syntax(
        input,
        REGISTER_SIGIL,
        REGISTER_LIMIT as int,
        Expected::RegisterSigil,
        Expected::RegisterNumber,
    ) {
        Ok((number, taken)) => Ok((Token::Register { reg_number: number as u8 }, taken)),
        Err(error) => Err(error),
    }
}

/// Reads a register.
pub fn register<'a>(input: &'a [u8]) -> (result: Result<(&'a [u8], Token), ParseError>)
    ensures
        agrees(input@, result, register_syntax(input@)),
{
    match sigil_number(
        input,
        REGISTER_SIGIL,
        REGISTER_LIMIT,
        Expected::RegisterSigil,
        Expected::RegisterNumber,
    ) {
        Ok((rest, number)) => Ok((rest, Token::Register { reg_number: number as u8 })),
        Err(error) => Err(error),
    }
}

} // verus!
