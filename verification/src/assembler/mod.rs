//! The assembler: from mnemonic source text to the machine's bytes.
//!
//! The source is read as bytes. A program is one `load` instruction after
//! the other, each of the form `load $<register> #<integer>`; the mnemonic
//! must be written out exactly, and white space may surround the register
//! and the integer. No other instruction has a written form yet.

use crate::instruction::Opcode;
use vstd::prelude::*;

pub mod agreement;
pub mod instruction_parsers;
pub mod opcode_parsers;
pub mod operand_parsers;
pub mod register_parsers;
pub mod scanner;

verus! {

/// One lexical element of the source.
#[derive(Debug, PartialEq, Eq, Clone, Copy, Structural)]
pub enum Token {
    Op { code: Opcode },
    Register { reg_number: u8 },
    IntegerOperand { value: i32 },
}

/// What a parser looked for where it gave up.
#[derive(Debug, PartialEq, Eq, Clone, Copy, Structural)]
pub enum Expected {
    /// The mnemonic `load`, written out.
    Mnemonic,
    /// `$`, which begins a register.
    RegisterSigil,
    /// `#`, which begins an integer operand.
    IntegerSigil,
    /// A decimal digit.
    Digit,
    /// A register number no larger than 255.
    RegisterNumber,
    /// An integer no larger than 2147483647.
    IntegerValue,
}

/// Why a source text is no program: where the parser gave up, what it looked
/// for there and which byte it found instead (`None` at the end of the
/// input). The position counts bytes from the start of the input that the
/// failing parser was given.
#[derive(Debug, PartialEq, Eq, Clone, Copy)]
pub struct ParseError {
    pub position: usize,
    pub expected: Expected,
    pub found: Option<u8>,
}

impl ParseError {
    /// The error of a parser that gave up at `position` in `input`.
    pub open spec fn at(input: Seq<u8>, position: int, expected: Expected) -> ParseError {
        ParseError {
            position: position as usize,
            expected,
            found: if 0 <= position < input.len() {
                Some(input[position])
            } else {
                None
            },
        }
    }

    /// The same error, seen from an input that begins `offset` bytes earlier.
    pub open spec fn shifted(self, offset: int) -> ParseError {
        ParseError { position: (self.position + offset) as usize, ..self }
    }

    /// The error of a parser that gave up at `position` in `input`.
    pub fn new(input: &[u8], position: usize, expected: Expected) -> (error: ParseError)
        ensures
            error == ParseError::at(input@, position as int, expected),
    {
        let found = if position < input.len() {
            Some(input[position])
        } else {
            None
        };
        ParseError { position, expected, found }
    }

    /// Moves the position by `offset` bytes.
    pub fn shift(self, offset: usize) -> (shifted: ParseError)
        requires
            self.position + offset <= usize::MAX,
        ensures
            shifted == self.shifted(offset as int),
    {
        ParseError { position: self.position + offset, expected: self.expected, found: self.found }
    }
}

/// Whether `result`, the rest of the input and a value or else an error, is
/// what `syntax` says a parser makes of `input`: the value and the number of
/// bytes taken from the front, or else that error.
pub open spec fn agrees<T>(
    input: Seq<u8>,
    result: Result<(&[u8], T), ParseError>,
    syntax: Result<(T, int), ParseError>,
) -> bool {
    match result {
        Ok((rest, value)) => {
            &&& rest@.len() <= input.len()
            &&& rest@ == input.skip(input.len() - rest@.len())
            &&& syntax == Ok::<(T, int), ParseError>((value, input.len() - rest@.len()))
        },
        Err(error) => syntax == Err::<(T, int), ParseError>(error) && error.position <= input.len(),
    }
}

} // verus!
