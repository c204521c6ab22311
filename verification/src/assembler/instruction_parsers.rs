//! Instructions and programs: their written form and their bytes.

use crate::assembler::opcode_parsers::{load_word, opcode_load, opcode_load_syntax};
use crate::assembler::operand_parsers::{
    integer_operand, integer_operand_syntax, INTEGER_LIMIT, INTEGER_SIGIL,
};
use crate::assembler::register_parsers::{
    register, register_syntax, REGISTER_LIMIT, REGISTER_SIGIL,
};
use crate::assembler::scanner::{lemma_common_prefix_bounded, lemma_number_syntax_taken};
use crate::assembler::{agrees, Expected, ParseError, Token};
use vstd::prelude::*;
use vstd::string::StringSliceAdditionalSpecFns;

verus! {

/// One instruction as written: its opcode and up to three operands.
#[derive(Debug, PartialEq)]
pub struct AssemblerInstruction {
    pub opcode: Token,
    pub operand1: Option<Token>,
    pub operand2: Option<Token>,
    pub operand3: Option<Token>,
}

/// Why an instruction has no bytes.
#[derive(Debug, PartialEq, Eq, Clone, Copy, Structural)]
pub enum EncodeError {
    /// The opcode slot holds a register or an integer.
    OpcodeExpected,
    /// The opcode slot holds `IGL`, which no byte stands for.
    IllegalOpcode,
    /// An operand slot holds an opcode.
    OperandExpected,
    /// The operands take more than the three bytes that an instruction has
    /// for them.
    OperandsTooWide,
}

/// How many bytes every instruction occupies.
pub const ENCODED_WIDTH: usize = 4;

/// The low sixteen bits of a number in two's complement, as a number from 0
/// to 65535.
pub open spec fn low_sixteen_bits(value: i32) -> int {
    (value as int) % 0x1_0000
}

/// The bytes of one operand: none for an empty slot, the register's number
/// for a register, and for an integer its low sixteen bits, high byte first.
pub open spec fn operand_encoding(operand: Option<Token>) -> Result<Seq<u8>, EncodeError> {
    match operand {
        None => Ok(Seq::empty()),
        Some(Token::Register { reg_number }) => Ok(seq![reg_number]),
        Some(Token::IntegerOperand { value }) => Ok(
            seq![
                (low_sixteen_bits(value) / 0x100) as u8,
                (low_sixteen_bits(value) % 0x100) as u8,
            ],
        ),
        Some(Token::Op { code }) => Err(EncodeError::OperandExpected),
    }
}

/// `bytes`, filled up with zeros to the width of an instruction.
pub open spec fn padded(bytes: Seq<u8>) -> Seq<u8>
    recommends
        bytes.len() <= ENCODED_WIDTH,
{
    bytes + Seq::new((ENCODED_WIDTH - bytes.len()) as nat, |i: int| 0u8)
}

/// Narrows an integer to its low sixteen bits: the high byte of them, then
/// the low byte.
fn narrowed(value: i32) -> (bytes: (u8, u8))
    ensures
        bytes.0 == low_sixteen_bits(value) / 0x100,
        bytes.1 == low_sixteen_bits(value) % 0x100,
{
    let converted = #[verifier::truncate] (value as u16);
    let value1 = #[verifier::truncate] (converted as u8);
    let value2 = (converted >> 8) as u8;
    proof {
        let unsigned = #[verifier::truncate] (value as u32);
        assert(unsigned == (if value < 0 {
            value + 0x1_0000_0000
        } else {
            value as int
        })) by (bit_vector)
            requires
                unsigned == #[verifier::truncate] (value as u32),
        ;
        assert(converted == unsigned % 0x1_0000) by (bit_vector)
            requires
                converted == #[verifier::truncate] (value as u16),
                unsigned == #[verifier::truncate] (value as u32),
        ;
        assert(value1 == converted % 0x100 && (converted >> 8) == converted / 0x100)
            by (bit_vector)
            requires
                value1 == #[verifier::truncate] (converted as u8),
        ;
        assert(converted == low_sixteen_bits(value));
    }
    (value2, value1)
}

impl AssemblerInstruction {
    /// The four bytes of the instruction: the opcode's byte, the bytes of
    /// the three operands in their order, and zeros for what is left of the
    /// width. Of several errors the one of the earliest slot is reported,
    /// and a width that is exceeded last.
    pub open spec fn encoding(&self) -> Result<Seq<u8>, EncodeError> {
        match self.opcode {
            Token::Op { code } => match code.encoding() {
                None => Err(EncodeError::IllegalOpcode),
                Some(byte) => match operand_encoding(self.operand1) {
                    Err(error) => Err(error),
                    Ok(first) => match operand_encoding(self.operand2) {
                        Err(error) => Err(error),
                        Ok(second) => match operand_encoding(self.operand3) {
                            Err(error) => Err(error),
                            Ok(third) => if 1 + first.len() + second.len() + third.len()
                                > ENCODED_WIDTH {
                                Err(EncodeError::OperandsTooWide)
                            } else {
                                Ok(padded(seq![byte] + first + second + third))
                            },
                        },
                    },
                },
            },
            _ => Err(EncodeError::OpcodeExpected),
        }
    }

    /// Appends the bytes of one operand to `results`.
    fn push_operand(results: &mut Vec<u8>, operand: &Option<Token>) -> (outcome: Result<
        (),
        EncodeError,
    >)
        ensures
            match outcome {
                Ok(()) => operand_encoding(*operand) matches Ok(bytes) && final(results)@ == old(
                    results,
                )@ + bytes,
                Err(error) => operand_encoding(*operand) == Err::<Seq<u8>, EncodeError>(error),
            },
    {
        match operand {
            Some(token) => match token {
                Token::Register { reg_number } => {
                    results.push(*reg_number);
                    assert(results@ =~= old(results)@ + seq![*reg_number]);
                    Ok(())
                },
                Token::IntegerOperand { value } => {
                    let (value2, value1) = narrowed(*value);
                    results.push(value2);
                    results.push(value1);
                    assert(results@ =~= old(results)@ + seq![value2, value1]);
                    Ok(())
                },
                _ => Err(EncodeError::OperandExpected),
            },
            None => {
                assert(results@ =~= old(results)@ + Seq::<u8>::empty());
                Ok(())
            },
        }
    }

    /// Encodes the instruction as its four bytes, as
    /// [`AssemblerInstruction::encoding`] describes them.
    pub fn to_bytes(&self) -> (result: Result<Vec<u8>, EncodeError>)
        ensures
            match result {
                Ok(bytes) => self.encoding() == Ok::<Seq<u8>, EncodeError>(bytes@),
                Err(error) => self.encoding() == Err::<Seq<u8>, EncodeError>(error),
            },
    {
        let mut results: Vec<u8> = Vec::new();
        match self.opcode {
            Token::Op { code } => match code.to_byte() {
                Some(byte) => {
                    results.push(byte);
                },
                None => {
                    return Err(EncodeError::IllegalOpcode);
                },
            },
            _ => {
                return Err(EncodeError::OpcodeExpected);
            },
        }
        AssemblerInstruction::push_operand(&mut results, &self.operand1)?;
        AssemblerInstruction::push_operand(&mut results, &self.operand2)?;
        AssemblerInstruction::push_operand(&mut results, &self.operand3)?;
        if results.len() > ENCODED_WIDTH {
            return Err(EncodeError::OperandsTooWide);
        }
        let ghost unpadded = results@;
        while results.len() < ENCODED_WIDTH
            invariant
                unpadded.len() <= results@.len() <= ENCODED_WIDTH,
                results@.take(unpadded.len() as int) == unpadded,
                forall|i: int| unpadded.len() <= i < results@.len() ==> results@[i] == 0,
            decreases ENCODED_WIDTH - results.len(),
        {
            results.push(0);
            assert(results@.take(unpadded.len() as int) =~= unpadded);
        }
        assert(results@ =~= padded(unpadded));
        Ok(results)
    }
}

/// The one instruction that has a written form: the mnemonic `load`, a
/// register and an integer operand, in that order.
pub open spec fn load_instruction_syntax(input: Seq<u8>) -> Result<
    (AssemblerInstruction, int),
    ParseError,
> {
    match opcode_load_syntax(input) {
        Err(error) => Err(error),
        Ok((opcode, mnemonic)) => match register_syntax(input.skip(mnemonic)) {
            Err(error) => Err(error.shifted(mnemonic)),
            Ok((target, first)) => match integer_operand_syntax(input.skip(mnemonic + first)) {
                Err(error) => Err(error.shifted(mnemonic + first)),
                Ok((number, second)) => Ok(
                    (
                        AssemblerInstruction {
                            opcode,
                            operand1: Some(target),
                            operand2: Some(number),
                            operand3: None,
                        },
                        mnemonic + first + second,
                    ),
                ),
            },
        },
    }
}

/// Reads one `load` instruction.
pub fn load_instruction<'a>(input: &'a [u8]) -> (result: Result<
    (&'a [u8], AssemblerInstruction),
    ParseError,
>)
    ensures
        agrees(input@, result, load_instruction_syntax(input@)),
{
    let (after_opcode, opcode) = match opcode_load(input) {
        Ok(parsed) => parsed,
        Err(error) => {
            return Err(error);
        },
    };
    let mnemonic = input.len() - after_opcode.len();
    let (after_register, target) = match register(after_opcode) {
        Ok(parsed) => parsed,
        Err(error) => {
            return Err(error.shift(mnemonic));
        },
    };
    let first = after_opcode.len() - after_register.len();
    assert(after_register@ =~= input@.skip(mnemonic + first));
    let (rest, number) = match integer_operand(after_register) {
        Ok(parsed) => parsed,
        Err(error) => {
            return Err(error.shift(mnemonic + first));
        },
    };
    assert(rest@ =~= input@.skip(input@.len() - rest@.len()));
    Ok(
        (
            rest,
            AssemblerInstruction {
                opcode,
                operand1: Some(target),
                operand2: Some(number),
                operand3: None,
            },
        ),
    )
}

/// An instruction takes at least one byte and no more than there are, and
/// an error points into the input or at its end.
pub proof fn lemma_load_instruction_taken(input: Seq<u8>)
    ensures
        match load_instruction_syntax(input) {
            Ok((_, taken)) => 0 < taken <= input.len(),
            Err(error) => error.position <= input.len(),
        },
{
    lemma_common_prefix_bounded(input, load_word());
    if let Ok((_, mnemonic)) = opcode_load_syntax(input) {
        let after_opcode = input.skip(mnemonic);
        lemma_number_syntax_taken(
            after_opcode,
            REGISTER_SIGIL,
            REGISTER_LIMIT as int,
            Expected::RegisterSigil,
            Expected::RegisterNumber,
        );
        if let Ok((_, first)) = register_syntax(after_opcode) {
            lemma_number_syntax_taken(
                input.skip(mnemonic + first),
                INTEGER_SIGIL,
                INTEGER_LIMIT as int,
                Expected::IntegerSigil,
                Expected::IntegerValue,
            );
        }
    }
}

/// An assembled unit: instructions in the order in which they were written.
pub struct Program {
    pub instructions: Vec<AssemblerInstruction>,
}

/// The bytes of instructions in a row: those of the first, then those of the
/// second, and so on; or the error of the first that has no bytes.
pub open spec fn encoding_of(instructions: Seq<AssemblerInstruction>) -> Result<
    Seq<u8>,
    EncodeError,
>
    decreases instructions.len(),
{
    if instructions.len() == 0 {
        Ok(Seq::empty())
    } else {
        match encoding_of(instructions.drop_last()) {
            Err(error) => Err(error),
            Ok(bytes) => match instructions.last().encoding() {
                Err(error) => Err(error),
                Ok(more) => Ok(bytes + more),
            },
        }
    }
}

impl Program {
    /// The bytes of the program: see [`encoding_of`].
    pub open spec fn encoding(&self) -> Result<Seq<u8>, EncodeError> {
        encoding_of(self.instructions@)
    }

    /// Encodes the program: the bytes of its instructions, in their order.
    pub fn to_bytes(&self) -> (result: Result<Vec<u8>, EncodeError>)
        ensures
            match result {
                Ok(bytes) => self.encoding() == Ok::<Seq<u8>, EncodeError>(bytes@),
                Err(error) => self.encoding() == Err::<Seq<u8>, EncodeError>(error),
            },
    {
        let mut program: Vec<u8> = Vec::new();
        let mut i: usize = 0;
        while i < self.instructions.len()
            invariant
                i <= self.instructions@.len(),
                encoding_of(self.instructions@.take(i as int)) == Ok::<Seq<u8>, EncodeError>(
                    program@,
                ),
            decreases self.instructions.len() - i,
        {
            let ghost longer = self.instructions@.take(i + 1);
            assert(longer.drop_last() =~= self.instructions@.take(i as int));
            assert(longer.last() == self.instructions@[i as int]);
            match self.instructions[i].to_bytes() {
                Ok(mut bytes) => {
                    program.append(&mut bytes);
                },
                Err(error) => {
                    proof {
                        lemma_encoding_of_fails(self.instructions@, i + 1);
                    }
                    return Err(error);
                },
            }
            i += 1;
        }
        assert(self.instructions@.take(i as int) =~= self.instructions@);
        Ok(program)
    }
}

/// Where a beginning of a row of instructions has no bytes, the whole row
/// has none, for the same reason.
pub proof fn lemma_encoding_of_fails(instructions: Seq<AssemblerInstruction>, count: int)
    requires
        0 <= count <= instructions.len(),
        encoding_of(instructions.take(count)) is Err,
    ensures
        encoding_of(instructions) == encoding_of(instructions.take(count)),
    decreases instructions.len() - count,
{
    if count == instructions.len() {
        assert(instructions.take(count) =~= instructions);
    } else {
        let longer = instructions.take(count + 1);
        assert(longer.drop_last() =~= instructions.take(count));
        lemma_encoding_of_fails(instructions, count + 1);
    }
}

/// An instruction that has bytes has four, and the first is the byte of its
/// opcode.
pub proof fn lemma_encoding_width(instruction: AssemblerInstruction)
    ensures
        instruction.encoding() matches Ok(bytes) ==> {
            &&& bytes.len() == ENCODED_WIDTH
            &&& instruction.opcode matches Token::Op { code }
            &&& code.encoding() == Some(bytes[0])
        },
{
}

/// The bytes of a row of instructions are four for each, and every
/// instruction's own bytes stand at its place in the row.
pub proof fn lemma_encoding_of_layout(instructions: Seq<AssemblerInstruction>)
    ensures
        encoding_of(instructions) matches Ok(bytes) ==> {
            &&& bytes.len() == ENCODED_WIDTH * instructions.len()
            &&& forall|k: int|
                0 <= k < instructions.len() ==> (#[trigger] instructions[k]).encoding() == Ok::<
                    Seq<u8>,
                    EncodeError,
                >(bytes.subrange(ENCODED_WIDTH * k, ENCODED_WIDTH * k + ENCODED_WIDTH))
        },
    decreases instructions.len(),
{
    if instructions.len() > 0 {
        let front = instructions.drop_last();
        lemma_encoding_of_layout(front);
        lemma_encoding_width(instructions.last());
        if let Ok(bytes) = encoding_of(instructions) {
            let before = encoding_of(front).unwrap();
            let more = instructions.last().encoding().unwrap();
            assert forall|k: int| 0 <= k < instructions.len() implies (
            #[trigger] instructions[k]).encoding() == Ok::<Seq<u8>, EncodeError>(
                bytes.subrange(ENCODED_WIDTH * k, ENCODED_WIDTH * k + ENCODED_WIDTH),
            ) by {
                if k < front.len() {
                    assert(instructions[k] == front[k]);
                    assert(bytes.subrange(ENCODED_WIDTH * k, ENCODED_WIDTH * k + ENCODED_WIDTH)
                        =~= before.subrange(
                        ENCODED_WIDTH * k,
                        ENCODED_WIDTH * k + ENCODED_WIDTH,
                    ));
                } else {
                    assert(bytes.subrange(ENCODED_WIDTH * k, ENCODED_WIDTH * k + ENCODED_WIDTH)
                        =~= more);
                }
            }
        }
    }
}

/// The bytes of a row of instructions begin with the bytes of its first.
pub proof fn lemma_encoding_of_prepend(
    first: AssemblerInstruction,
    more: Seq<AssemblerInstruction>,
)
    ensures
        encoding_of(seq![first] + more) == (match first.encoding() {
            Err(error) => Err(error),
            Ok(bytes) => match encoding_of(more) {
                Err(error) => Err(error),
                Ok(rest) => Ok(bytes + rest),
            },
        }),
    decreases more.len(),
{
    let all = seq![first] + more;
    assert(all.last() == (if more.len() == 0 {
        first
    } else {
        more.last()
    }));
    if more.len() == 0 {
        assert(all.drop_last() =~= Seq::<AssemblerInstruction>::empty());
        assert(encoding_of(all.drop_last()) == Ok::<Seq<u8>, EncodeError>(Seq::empty()));
        assert(encoding_of(more) == Ok::<Seq<u8>, EncodeError>(Seq::empty()));
        if let Ok(bytes) = first.encoding() {
            assert(Seq::<u8>::empty() + bytes =~= bytes + Seq::<u8>::empty());
        }
    } else {
        let front = seq![first] + more.drop_last();
        assert(all.drop_last() =~= front);
        lemma_encoding_of_prepend(first, more.drop_last());
        if let Ok(bytes) = first.encoding() {
            if let Ok(rest) = encoding_of(more.drop_last()) {
                assert(encoding_of(front) == Ok::<Seq<u8>, EncodeError>(bytes + rest));
                if let Ok(last) = more.last().encoding() {
                    assert((bytes + rest) + last =~= bytes + (rest + last));
                }
            }
        }
    }
}

/// The instructions that `input` spells from byte `start` on: one `load`
/// instruction after the other, as many as there are, up to the end of the
/// input. There is at least one, and nothing may be left over: where no
/// further instruction can be read and the input has not ended, that is the
/// error. Its position counts from the start of `input`.
pub open spec fn program_syntax_from(input: Seq<u8>, start: int) -> Result<
    Seq<AssemblerInstruction>,
    ParseError,
>
    decreases input.len() - start,
    when 0 <= start <= input.len()
    via program_syntax_terminates
{
    match load_instruction_syntax(input.skip(start)) {
        Err(error) => Err(error.shifted(start)),
        Ok((instruction, taken)) => if start + taken == input.len() {
            Ok(seq![instruction])
        } else {
            following(seq![instruction], program_syntax_from(input, start + taken))
        },
    }
}

#[via_fn]
proof fn program_syntax_terminates(input: Seq<u8>, start: int) {
    lemma_load_instruction_taken(input.skip(start));
}

/// The instructions `first`, followed by what comes out of the rest of the
/// input.
pub open spec fn following(
    first: Seq<AssemblerInstruction>,
    rest: Result<Seq<AssemblerInstruction>, ParseError>,
) -> Result<Seq<AssemblerInstruction>, ParseError> {
    match rest {
        Ok(more) => Ok(first + more),
        Err(error) => Err(error),
    }
}

/// The instructions that `input` spells.
pub open spec fn program_syntax(input: Seq<u8>) -> Result<Seq<AssemblerInstruction>, ParseError> {
    program_syntax_from(input, 0)
}

/// Reads a program: one or more `load` instructions that use up the input.
/// The rest that is returned with the program is therefore empty.
pub fn program<'a>(input: &'a [u8]) -> (result: Result<(&'a [u8], Program), ParseError>)
    ensures
        match result {
            Ok((rest, program)) => {
                &&& rest@.len() == 0
                &&& program_syntax(input@) == Ok::<Seq<AssemblerInstruction>, ParseError>(
                    program.instructions@,
                )
            },
            Err(error) => program_syntax(input@) == Err::<Seq<AssemblerInstruction>, ParseError>(
                error,
            ),
        },
{
    let mut instructions: Vec<AssemblerInstruction> = Vec::new();
    let mut rest = input;
    assert(Seq::<AssemblerInstruction>::empty() + seq![] =~= seq![]);
    loop
        invariant
            rest@.len() <= input@.len(),
            rest@ == input@.skip(input@.len() - rest@.len()),
            program_syntax(input@) == following(
                instructions@,
                program_syntax_from(input@, input@.len() - rest@.len()),
            ),
        decreases rest@.len(),
    {
        let ghost start = input@.len() - rest@.len();
        proof {
            lemma_load_instruction_taken(rest@);
        }
        match load_instruction(rest) {
            Err(error) => {
                return Err(error.shift(input.len() - rest.len()));
            },
            Ok((after, instruction)) => {
                let ghost taken = rest@.len() - after@.len();
                let ghost before = instructions@;
                let ghost tail = program_syntax_from(input@, start + taken);
                instructions.push(instruction);
                assert(after@ =~= input@.skip(input@.len() - after@.len()));
                rest = after;
                if rest.len() == 0 {
                    assert(before + seq![instruction] =~= instructions@);
                    return Ok((rest, Program { instructions }));
                }
                assert(following(before, following(seq![instruction], tail)) == following(
                    instructions@,
                    tail,
                )) by {
                    if let Ok(more) = tail {
                        assert(before + (seq![instruction] + more) =~= instructions@ + more);
                    }
                }
            },
        }
    }
}

/// Reads the source text of a program.
pub fn parse(source: &str) -> (result: Result<Program, ParseError>)
    ensures
        match result {
            Ok(program) => program_syntax(source.spec_bytes()) == Ok::<
                Seq<AssemblerInstruction>,
                ParseError,
            >(program.instructions@),
            Err(error) => program_syntax(source.spec_bytes()) == Err::<
                Seq<AssemblerInstruction>,
                ParseError,
            >(error),
        },
{
    match program(source.as_bytes()) {
        Ok((_, program)) => Ok(program),
        Err(error) => Err(error),
    }
}

} // verus!
