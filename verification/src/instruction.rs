//! The opcode table: which byte stands for which operation.

use vstd::prelude::*;

verus! {

/// The operations of the machine. `IGL` is no operation of its own: it is
/// what every byte without a meaning decodes to.
#[derive(Debug, Clone, Copy, PartialEq, Eq, Structural)]
pub enum Opcode {
    HLT,
    IGL,
    LOAD,
    ADD,
    SUB,
    MUL,
    DIV,
    JMP,
    JMPF,
    JMPB,
    EQ,
    NEQ,
    JEQ,
    GEQ,
    LEQ,
    GT,
    LT,
    JNEQ,
}

/// The largest byte that stands for an operation.
pub const LAST_OPCODE_BYTE: u8 = 16;

impl Opcode {
    /// The operation that a byte stands for.
    pub open spec fn decode(byte: u8) -> Opcode {
        if byte == 0 {
            Opcode::HLT
        } else if byte == 1 {
            Opcode::LOAD
        } else if byte == 2 {
            Opcode::ADD
        } else if byte == 3 {
            Opcode::SUB
        } else if byte == 4 {
            Opcode::MUL
        } else if byte == 5 {
            Opcode::DIV
        } else if byte == 6 {
            Opcode::JMP
        } else if byte == 7 {
            Opcode::JMPF
        } else if byte == 8 {
            Opcode::JMPB
        } else if byte == 9 {
            Opcode::EQ
        } else if byte == 10 {
            Opcode::NEQ
        } else if byte == 11 {
            Opcode::JEQ
        } else if byte == 12 {
            Opcode::GEQ
        } else if byte == 13 {
            Opcode::LEQ
        } else if byte == 14 {
            Opcode::GT
        } else if byte == 15 {
            Opcode::LT
        } else if byte == 16 {
            Opcode::JNEQ
        } else {
            Opcode::IGL
        }
    }

    /// The byte that stands for an operation; `IGL` has none.
    pub open spec fn encoding(self) -> Option<u8> {
        match self {
            Opcode::HLT => Some(0u8),
            Opcode::LOAD => Some(1u8),
            Opcode::ADD => Some(2u8),
            Opcode::SUB => Some(3u8),
            Opcode::MUL => Some(4u8),
            Opcode::DIV => Some(5u8),
            Opcode::JMP => Some(6u8),
            Opcode::JMPF => Some(7u8),
            Opcode::JMPB => Some(8u8),
            Opcode::EQ => Some(9u8),
            Opcode::NEQ => Some(10u8),
            Opcode::JEQ => Some(11u8),
            Opcode::GEQ => Some(12u8),
            Opcode::LEQ => Some(13u8),
            Opcode::GT => Some(14u8),
            Opcode::LT => Some(15u8),
            Opcode::JNEQ => Some(16u8),
            Opcode::IGL => None,
        }
    }

    /// Decodes a byte. Total: a byte without a meaning gives `IGL`.
    pub fn from_byte(byte: u8) -> (opcode: Opcode)
        ensures
            opcode == Opcode::decode(byte),
    {
        match byte {
            0 => Opcode::HLT,
            1 => Opcode::LOAD,
            2 => Opcode::ADD,
            3 => Opcode::SUB,
            4 => Opcode::MUL,
            5 => Opcode::DIV,
            6 => Opcode::JMP,
            7 => Opcode::JMPF,
            8 => Opcode::JMPB,
            9 => Opcode::EQ,
            10 => Opcode::NEQ,
            11 => Opcode::JEQ,
            12 => Opcode::GEQ,
            13 => Opcode::LEQ,
            14 => Opcode::GT,
            15 => Opcode::LT,
            16 => Opcode::JNEQ,
            _ => Opcode::IGL,
        }
    }

    /// Encodes an operation as its byte, or `None` for `IGL`.
    pub fn to_byte(&self) -> (byte: Option<u8>)
        ensures
            byte == self.encoding(),
    {
        match self {
            Opcode::HLT => Some(0),
            Opcode::LOAD => Some(1),
            Opcode::ADD => Some(2),
            Opcode::SUB => Some(3),
            Opcode::MUL => Some(4),
            Opcode::DIV => Some(5),
            Opcode::JMP => Some(6),
            Opcode::JMPF => Some(7),
            Opcode::JMPB => Some(8),
            Opcode::EQ => Some(9),
            Opcode::NEQ => Some(10),
            Opcode::JEQ => Some(11),
            Opcode::GEQ => Some(12),
            Opcode::LEQ => Some(13),
            Opcode::GT => Some(14),
            Opcode::LT => Some(15),
            Opcode::JNEQ => Some(16),
            Opcode::IGL => None,
        }
    }

    /// Decoding undoes encoding: every operation but `IGL` has a byte, and
    /// that byte decodes to the operation it came from.
    pub proof fn lemma_decode_encoding(opcode: Opcode)
        requires
            opcode != Opcode::IGL,
        ensures
            opcode.encoding() is Some,
            opcode.encoding().unwrap() <= LAST_OPCODE_BYTE,
            Opcode::decode(opcode.encoding().unwrap()) == opcode,
    {
    }

    /// Encoding undoes decoding on the bytes that have a meaning, and all
    /// the other bytes decode to `IGL`.
    pub proof fn lemma_encoding_decode(byte: u8)
        ensures
            byte <= LAST_OPCODE_BYTE ==> Opcode::decode(byte).encoding() == Some(byte),
            byte > LAST_OPCODE_BYTE <==> Opcode::decode(byte) == Opcode::IGL,
    {
    }

    /// No two operations share a byte.
    pub proof fn lemma_encoding_injective(a: Opcode, b: Opcode)
        requires
            a != Opcode::IGL,
            a.encoding() == b.encoding(),
        ensures
            a == b,
    {
    }
}

impl From<u8> for Opcode {
    fn from(byte: u8) -> (opcode: Opcode) {
        Opcode::from_byte(byte)
    }
}

impl vstd::std_specs::convert::FromSpecImpl<u8> for Opcode {
    open spec fn obeys_from_spec() -> bool {
        true
    }

    open spec fn from_spec(byte: u8) -> Opcode {
        Opcode::decode(byte)
    }
}

/// One decoded instruction: its operation.
pub struct Instruction {
    pub opcode: Opcode,
}

impl Instruction {
    /// The instruction with that operation.
    pub fn new(opcode: Opcode) -> (instruction: Instruction)
        ensures
            instruction.opcode == opcode,
    {
        Instruction { opcode }
    }
}

} // verus!
