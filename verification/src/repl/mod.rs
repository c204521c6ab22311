//! The decisions of the interactive shell: what a line of input asks for,
//! and the bytes that a line of hexadecimal numbers spells.
//!
//! Reading lines and printing are left to the program around the library:
//! it hands each line, trimmed, to [`REPL::dispatch`] and acts on the answer.

use crate::vm::{ExecutionFault, VmState, VM};
use vstd::prelude::*;
use vstd::slice::slice_subrange;
use vstd::string::StringSliceAdditionalSpecFns;

verus! {

/// Why a piece of a line is no byte in hexadecimal.
#[derive(Debug, Clone, Copy, PartialEq, Eq, Structural)]
pub enum HexError {
    /// The piece is empty.
    Empty,
    /// The piece holds a byte that is no hexadecimal digit, or is nothing
    /// but a sign.
    InvalidDigit,
    /// The number is larger than 255.
    Overflow,
}

/// What the shell is to do after a line.
#[derive(Debug, Clone, Copy, PartialEq, Eq)]
pub enum Action {
    /// Leave.
    Quit,
    /// Show every line entered so far.
    History,
    /// Show the registers.
    Registers,
    /// Nothing: the line's bytes were added to the program and the machine
    /// carried out one cycle, with this outcome.
    Executed(Result<bool, ExecutionFault>),
    /// Report that the line is neither a command nor hexadecimal bytes.
    InvalidHex(HexError),
}

/// The shell's state: the lines entered so far and the machine.
pub struct REPL {
    pub command_buffer: Vec<String>,
    pub vm: VM,
}

/// The byte that separates the pieces of a line: a space.
pub const SEPARATOR: u8 = 0x20;

/// The value of a hexadecimal digit, in either case.
pub open spec fn hex_digit(byte: u8) -> Option<int> {
    if 0x30 <= byte <= 0x39 {
        Some(byte - 0x30)
    } else if 0x61 <= byte <= 0x66 {
        Some(byte - 0x61 + 10)
    } else if 0x41 <= byte <= 0x46 {
        Some(byte - 0x41 + 10)
    } else {
        None
    }
}

/// The number that hexadecimal digits spell behind digits that spelled
/// `so_far`. Reading from the left, the first byte that is no digit, or with
/// which the number passes 255, decides the error.
pub open spec fn hex_digits_value(digits: Seq<u8>, so_far: int) -> Result<u8, HexError>
    decreases digits.len(),
{
    if digits.len() == 0 {
        Ok(so_far as u8)
    } else {
        match hex_digit(digits[0]) {
            None => Err(HexError::InvalidDigit),
            Some(digit) => if so_far * 16 + digit > u8::MAX {
                Err(HexError::Overflow)
            } else {
                hex_digits_value(digits.skip(1), so_far * 16 + digit)
            },
        }
    }
}

/// The byte that one piece of a line spells: one or more hexadecimal digits,
/// with a `+` before them or without, that spell a number up to 255.
pub open spec fn hex_byte(piece: Seq<u8>) -> Result<u8, HexError> {
    if piece.len() == 0 {
        Err(HexError::Empty)
    } else if piece[0] == 0x2b {
        if piece.len() == 1 {
            Err(HexError::InvalidDigit)
        } else {
            hex_digits_value(piece.skip(1), 0)
        }
    } else {
        hex_digits_value(piece, 0)
    }
}

/// How many bytes stand before the first space of `input`, or in all of it
/// where it has none.
pub open spec fn piece_length(input: Seq<u8>) -> int
    decreases input.len(),
{
    if input.len() == 0 || input[0] == SEPARATOR {
        0
    } else {
        1 + piece_length(input.skip(1))
    }
}

/// The bytes that a line spells: the line is cut at every space, and every
/// piece, empty ones too, must spell a byte. The first piece that does not
/// decides the error.
pub open spec fn hex_bytes(input: Seq<u8>) -> Result<Seq<u8>, HexError>
    decreases input.len(),
    via hex_bytes_terminates
{
    let length = piece_length(input);
    match hex_byte(input.take(length)) {
        Err(error) => Err(error),
        Ok(byte) => if length == input.len() {
            Ok(seq![byte])
        } else {
            match hex_bytes(input.skip(length + 1)) {
                Err(error) => Err(error),
                Ok(more) => Ok(seq![byte] + more),
            }
        },
    }
}

#[via_fn]
proof fn hex_bytes_terminates(input: Seq<u8>) {
    lemma_piece_length(input);
}

/// The first piece lies within the input, holds no space and ends at a
/// space or at the end.
pub proof fn lemma_piece_length(input: Seq<u8>)
    ensures
        0 <= piece_length(input) <= input.len(),
        forall|i: int| 0 <= i < piece_length(input) ==> #[trigger] input[i] != SEPARATOR,
        piece_length(input) < input.len() ==> input[piece_length(input)] == SEPARATOR,
    decreases input.len(),
{
    if input.len() > 0 && input[0] != SEPARATOR {
        let rest = input.skip(1);
        lemma_piece_length(rest);
        assert forall|i: int| 0 <= i < piece_length(input) implies #[trigger] input[i]
            != SEPARATOR by {
            if i > 0 {
                assert(input[i] == rest[i - 1]);
            }
        }
    }
}

/// The first `length` bytes of `input` are its first piece where none of
/// them is a space and a space or the end follows.
pub proof fn lemma_piece_found(input: Seq<u8>, length: int)
    requires
        0 <= length <= input.len(),
        forall|i: int| 0 <= i < length ==> #[trigger] input[i] != SEPARATOR,
        length < input.len() ==> input[length] == SEPARATOR,
    ensures
        piece_length(input) == length,
    decreases input.len(),
{
    if length > 0 {
        assert(input[0] != SEPARATOR);
        let rest = input.skip(1);
        assert forall|i: int| 0 <= i < length - 1 implies #[trigger] rest[i] != SEPARATOR by {
            assert(rest[i] == input[i + 1]);
        }
        lemma_piece_found(rest, length - 1);
    }
}

/// The value of a hexadecimal digit, or `None` for any other byte.
fn digit_value(byte: u8) -> (value: Option<u8>)
    ensures
        match value {
            Some(digit) => hex_digit(byte) == Some(digit as int),
            None => hex_digit(byte) is None,
        },
{
    if 0x30 <= byte && byte <= 0x39 {
        Some(byte - 0x30)
    } else if 0x61 <= byte && byte <= 0x66 {
        Some(byte - 0x61 + 10)
    } else if 0x41 <= byte && byte <= 0x46 {
        Some(byte - 0x41 + 10)
    } else {
        None
    }
}

/// Reads one piece of a line as a byte in hexadecimal.
pub fn parse_hex_byte(piece: &[u8]) -> (result: Result<u8, HexError>)
    ensures
        result == hex_byte(piece@),
{
    if piece.len() == 0 {
        return Err(HexError::Empty);
    }
    let mut i: usize = 0;
    if piece[0] == 0x2b {
        if piece.len() == 1 {
            return Err(HexError::InvalidDigit);
        }
        i = 1;
    }
    let mut value: u8 = 0;
    assert(piece@.skip(0) =~= piece@);
    while i < piece.len()
        invariant
            i <= piece.len(),
            hex_byte(piece@) == hex_digits_value(piece@.skip(i as int), value as int),
        decreases piece.len() - i,
    {
        let digit = match digit_value(piece[i]) {
            Some(digit) => digit,
            None => {
                return Err(HexError::InvalidDigit);
            },
        };
        if value > 15 {
            return Err(HexError::Overflow);
        }
        value = value * 16 + digit;
        assert(piece@.skip(i as int).skip(1) =~= piece@.skip(i + 1));
        i += 1;
    }
    Ok(value)
}

/// Whether two strings are the same.
fn same_text(left: &str, right: &str) -> (same: bool)
    ensures
        same == (left@ == right@),
{
    let a = left.as_bytes();
    let b = right.as_bytes();
    if a.len() != b.len() {
        return false;
    }
    let mut i: usize = 0;
    while i < a.len()
        invariant
            i <= a.len(),
            a@.len() == b@.len(),
            a@ == left.spec_bytes(),
            b@ == right.spec_bytes(),
            forall|k: int| 0 <= k < i ==> a@[k] == b@[k],
        decreases a.len() - i,
    {
        if a[i] != b[i] {
            assert(a@[i as int] != b@[i as int]);
            return false;
        }
        i += 1;
    }
    proof {
        assert(a@ =~= b@);
        vstd::utf8::encode_utf8_decode_utf8(left@);
        vstd::utf8::encode_utf8_decode_utf8(right@);
    }
    true
}

/// What a line asks for, and the machine after it. `.quit`, `.history` and
/// `.registers` are commands and leave the machine alone. Any other line is
/// read as bytes in hexadecimal: they are added to the program, and the
/// machine carries out one cycle. A line that is neither changes nothing.
pub open spec fn reaction(machine: VmState, line: &str) -> (VmState, Action) {
    if line@ == ".quit"@ {
        (machine, Action::Quit)
    } else if line@ == ".history"@ {
        (machine, Action::History)
    } else if line@ == ".registers"@ {
        (machine, Action::Registers)
    } else {
        match hex_bytes(line.spec_bytes()) {
            Err(error) => (machine, Action::InvalidHex(error)),
            Ok(bytes) => {
                let loaded = VmState { program: machine.program + bytes, ..machine };
                match loaded.step() {
                    Ok((next, stop)) => (next, Action::Executed(Ok(stop))),
                    Err(fault) => (loaded, Action::Executed(Err(fault))),
                }
            },
        }
    }
}

impl REPL {
    /// The lines entered so far, oldest first.
    pub open spec fn history(&self) -> Seq<Seq<char>> {
        self.command_buffer@.map_values(|command: String| command@)
    }

    /// A shell with no history and a machine that has just been made.
    pub fn new() -> (repl: REPL)
        ensures
            repl.history() == Seq::<Seq<char>>::empty(),
            repl.vm@ == VmState::initial(),
    {
        let repl = REPL { command_buffer: Vec::new(), vm: VM::new() };
        assert(repl.history() =~= Seq::<Seq<char>>::empty());
        repl
    }

    /// Reads a line of bytes in hexadecimal, separated by single spaces, as
    /// [`hex_bytes`] describes it.
    pub fn parse_hex(&self, input: &str) -> (result: Result<Vec<u8>, HexError>)
        ensures
            match result {
                Ok(bytes) => hex_bytes(input.spec_bytes()) == Ok::<Seq<u8>, HexError>(bytes@),
                Err(error) => hex_bytes(input.spec_bytes()) == Err::<Seq<u8>, HexError>(error),
            },
    {
        let bytes = input.as_bytes();
        let mut parsed_instructions: Vec<u8> = Vec::new();
        let mut start: usize = 0;
        assert(bytes@.skip(0) =~= bytes@);
        loop
            invariant
                start <= bytes@.len(),
                bytes@ == input.spec_bytes(),
                hex_bytes(bytes@) == (match hex_bytes(bytes@.skip(start as int)) {
                    Err(error) => Err(error),
                    Ok(more) => Ok(parsed_instructions@ + more),
                }),
            decreases bytes@.len() - start,
        {
            let ghost rest = bytes@.skip(start as int);
            let mut end = start;
            while end < bytes.len() && bytes[end] != SEPARATOR
                invariant
                    start <= end <= bytes@.len(),
                    forall|k: int| start <= k < end ==> bytes@[k] != SEPARATOR,
                decreases bytes@.len() - end,
            {
                end += 1;
            }
            proof {
                assert forall|i: int| 0 <= i < end - start implies #[trigger] rest[i]
                    != SEPARATOR by {
                    assert(rest[i] == bytes@[start + i]);
                }
                lemma_piece_found(rest, end - start);
            }
            let piece = slice_subrange(bytes, start, end);
            assert(piece@ =~= rest.take(end - start));
            match parse_hex_byte(piece) {
                Ok(parsed_int) => {
                    let ghost before = parsed_instructions@;
                    parsed_instructions.push(parsed_int);
                    if end == bytes.len() {
                        assert(before + seq![parsed_int] =~= parsed_instructions@);
                        return Ok(parsed_instructions);
                    }
                    proof {
                        assert(rest.skip(end - start + 1) =~= bytes@.skip(end + 1));
                        if let Ok(more) = hex_bytes(bytes@.skip(end + 1)) {
                            assert(before + (seq![parsed_int] + more) =~= parsed_instructions@
                                + more);
                        }
                    }
                    start = end + 1;
                },
                Err(error) => {
                    return Err(error);
                },
            }
        }
    }

    /// Takes one line of input, from which the white space at both ends has
    /// been removed: notes it in the history, and does what
    /// [`reaction`] says it asks for.
    pub fn dispatch(&mut self, line: &str) -> (action: Action)
        ensures
            final(self).history() == old(self).history().push(line@),
            (final(self).vm@, action) == reaction(old(self).vm@, line),
    {
        self.command_buffer.push(line.to_owned());
        assert(self.history() =~= old(self).history().push(line@));
        if same_text(line, ".quit") {
            return Action::Quit;
        }
        if same_text(line, ".history") {
            return Action::History;
        }
        if same_text(line, ".registers") {
            return Action::Registers;
        }
        match self.parse_hex(line) {
            Ok(bytes) => {
                let mut i: usize = 0;
                while i < bytes.len()
                    invariant
                        i <= bytes@.len(),
                        self.vm@ == (VmState {
                            program: old(self).vm@.program + bytes@.take(i as int),
                            ..old(self).vm@
                        }),
                        self.history() == old(self).history().push(line@),
                    decreases bytes.len() - i,
                {
                    self.vm.add_byte(bytes[i]);
                    assert(bytes@.take(i + 1) =~= bytes@.take(i as int).push(bytes@[i as int]));
                    assert(self.vm@.program =~= old(self).vm@.program + bytes@.take(i + 1));
                    i += 1;
                }
                assert(bytes@.take(i as int) =~= bytes@);
                Action::Executed(self.vm.run_once())
            },
            Err(err) => Action::InvalidHex(err),
        }
    }
}

} // verus!
