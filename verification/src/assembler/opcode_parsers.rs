//! The mnemonic.

use crate::assembler::scanner::{common_prefix, match_prefix};
use crate::assembler::{agrees, Expected, ParseError, Token};
use crate::instruction::Opcode;
use vstd::prelude::*;
use vstd::slice::slice_subrange;

verus! {

/// The bytes of the word `load`.
pub open spec fn load_word() -> Seq<u8> {
    seq![0x6cu8, 0x6fu8, 0x61u8, 0x64u8]
}

/// The mnemonic `load` at the very start of the input, in lower case and
/// with nothing before it. Where the input differs from the word, the error
/// points at the first byte that does.
pub open spec fn opcode_load_syntax(input: Seq<u8>) -> Result<(Token, int), ParseError> {
    let matched = common_prefix(input, load_word());
    if matched == load_word().len() {
        Ok((Token::Op { code: Opcode::LOAD }, matched))
    } else {
        Err(ParseError::at(input, matched, Expected::Mnemonic))
    }
}

/// Reads the mnemonic `load`.
pub fn opcode_load<'a>(input: &'a [u8]) -> (result: Result<(&'a [u8], Token), ParseError>)
    ensures
        agrees(input@, result, opcode_load_syntax(input@)),
{
    let word: [u8; 4] = [0x6c, 0x6f, 0x61, 0x64];
    assert(word@ =~= load_word());
    let matched = match_prefix(input, word.as_slice());
    if matched == 4 {
        let rest = slice_subrange(input, matched, input.len());
        assert(rest@ =~= input@.skip(input@.len() - rest@.len()));
        Ok((rest, Token::Op { code: Opcode::LOAD }))
    } else {
        Err(ParseError::new(input, matched, Expected::Mnemonic))
    }
}

} // verus!
