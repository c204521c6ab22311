//! How the assembler and the machine agree: what a program that was read
//! looks like, that it has bytes, and that the machine executes those bytes
//! as the source meant them.

use crate::assembler::instruction_parsers::{
    encoding_of, lemma_encoding_of_layout, lemma_encoding_of_prepend,
    lemma_load_instruction_taken, load_instruction_syntax, low_sixteen_bits,
    program_syntax_from, AssemblerInstruction, EncodeError, ENCODED_WIDTH,
};
use crate::assembler::opcode_parsers::opcode_load_syntax;
use crate::assembler::operand_parsers::{INTEGER_LIMIT, INTEGER_SIGIL};
use crate::assembler::register_parsers::register_syntax;
use crate::assembler::scanner::lemma_number_syntax_taken;
use crate::assembler::{Expected, Token};
use crate::instruction::Opcode;
use crate::vm::{sign_extended, ExecutionFault, VmState, REGISTER_COUNT};
use vstd::prelude::*;

verus! {

/// The instruction `load $target #number`.
pub open spec fn load_of(target: u8, number: i32) -> AssemblerInstruction {
    AssemblerInstruction {
        opcode: Token::Op { code: Opcode::LOAD },
        operand1: Some(Token::Register { reg_number: target }),
        operand2: Some(Token::IntegerOperand { value: number }),
        operand3: None,
    }
}

/// A `load` instruction always has bytes: the byte of `LOAD`, the register's
/// number, and the low sixteen bits of the integer, high byte first.
pub proof fn lemma_load_encoding(target: u8, number: i32)
    ensures
        load_of(target, number).encoding() == Ok::<Seq<u8>, EncodeError>(
            seq![
                1u8,
                target,
                (low_sixteen_bits(number) / 0x100) as u8,
                (low_sixteen_bits(number) % 0x100) as u8,
            ],
        ),
{
    let instruction = load_of(target, number);
    let bytes = instruction.encoding().unwrap();
    assert(bytes =~= seq![
        1u8,
        target,
        (low_sixteen_bits(number) / 0x100) as u8,
        (low_sixteen_bits(number) % 0x100) as u8,
    ]);
}

/// The machine executes the bytes of `load $target #number` as a load into
/// that register: where they stand under the counter and the machine has
/// the register, one cycle puts the low sixteen bits of the number, extended
/// by their sign, into the register, moves the counter past the four bytes
/// and changes nothing else. For a number from -32768 to 32767 the register
/// then holds the number itself.
pub proof fn lemma_assembled_load_executes(machine: VmState, target: u8, number: i32)
    requires
        target < REGISTER_COUNT,
        0 <= machine.pc,
        machine.pc + ENCODED_WIDTH <= machine.program.len(),
        load_of(target, number).encoding() == Ok::<Seq<u8>, EncodeError>(
            machine.program.subrange(machine.pc, machine.pc + ENCODED_WIDTH),
        ),
    ensures
        machine.step() == Ok::<(VmState, bool), ExecutionFault>(
            (
                machine.with_register(
                    target as int,
                    sign_extended(low_sixteen_bits(number)) as i32,
                ).at(machine.pc + ENCODED_WIDTH),
                false,
            ),
        ),
        -0x8000 <= number < 0x8000 ==> sign_extended(low_sixteen_bits(number)) == number,
{
    lemma_load_encoding(target, number);
    let bytes = machine.program.subrange(machine.pc, machine.pc + ENCODED_WIDTH);
    assert(bytes[0] == machine.program[machine.pc]);
    assert(bytes[1] == machine.operand(0));
    assert(bytes[2] == machine.operand(1));
    assert(bytes[3] == machine.operand(2));
    let low = low_sixteen_bits(number);
    assert(0 <= low < 0x1_0000);
    assert((low / 0x100) * 0x100 + low % 0x100 == low);
}

/// Whether an instruction is a `load` of a register and an integer.
pub open spec fn is_load(instruction: AssemblerInstruction) -> bool {
    &&& instruction.opcode == Token::Op { code: Opcode::LOAD }
    &&& instruction.operand1 matches Some(Token::Register { .. })
    &&& instruction.operand2 matches Some(Token::IntegerOperand { .. })
    &&& instruction.operand3 is None
}

/// The register that a `load` names.
pub open spec fn load_target(instruction: AssemblerInstruction) -> u8
    recommends
        is_load(instruction),
{
    instruction.operand1.unwrap()->reg_number
}

/// The integer that a `load` names.
pub open spec fn load_number(instruction: AssemblerInstruction) -> i32
    recommends
        is_load(instruction),
{
    instruction.operand2.unwrap()->value
}

/// What is read as an instruction is a `load` of a register and of an
/// integer that is not negative.
pub proof fn lemma_load_instruction_shape(input: Seq<u8>)
    ensures
        load_instruction_syntax(input) matches Ok((instruction, _)) ==> {
            &&& is_load(instruction)
            &&& load_number(instruction) >= 0
            &&& instruction == load_of(load_target(instruction), load_number(instruction))
        },
{
    if let Ok((instruction, _)) = load_instruction_syntax(input) {
        let mnemonic = opcode_load_syntax(input).unwrap().1;
        let (target, first) = register_syntax(input.skip(mnemonic)).unwrap();
        lemma_number_syntax_taken(
            input.skip(mnemonic + first),
            INTEGER_SIGIL,
            INTEGER_LIMIT as int,
            Expected::IntegerSigil,
            Expected::IntegerValue,
        );
    }
}

/// Every program that can be read is a row of one or more `load`
/// instructions and can be encoded, and four bytes come out for each of its
/// instructions.
pub proof fn lemma_parsed_program_encodes(input: Seq<u8>, start: int)
    requires
        0 <= start <= input.len(),
    ensures
        program_syntax_from(input, start) matches Ok(instructions) ==> {
            &&& instructions.len() >= 1
            &&& forall|k: int| 0 <= k < instructions.len() ==> is_load(#[trigger] instructions[k])
            &&& encoding_of(instructions) matches Ok(bytes)
            &&& bytes.len() == ENCODED_WIDTH * instructions.len()
        },
    decreases input.len() - start,
{
    match load_instruction_syntax(input.skip(start)) {
        Err(_) => {},
        Ok((instruction, taken)) => {
            lemma_load_instruction_taken(input.skip(start));
            lemma_load_instruction_shape(input.skip(start));
            lemma_load_encoding(load_target(instruction), load_number(instruction));
            lemma_encoding_of_prepend(instruction, Seq::empty());
            assert(seq![instruction] + Seq::empty() =~= seq![instruction]);
            if start + taken != input.len() {
                lemma_parsed_program_encodes(input, start + taken);
                if let Ok(more) = program_syntax_from(input, start + taken) {
                    lemma_encoding_of_prepend(instruction, more);
                }
            }
            if let Ok(instructions) = program_syntax_from(input, start) {
                lemma_encoding_of_layout(instructions);
            }
        },
    }
}

/// The registers after the `load` instructions in a row have been carried
/// out on them, one after the other.
pub open spec fn registers_after(
    registers: Seq<i32>,
    instructions: Seq<AssemblerInstruction>,
) -> Seq<i32>
    decreases instructions.len(),
{
    if instructions.len() == 0 {
        registers
    } else {
        registers_after(
            registers.update(
                load_target(instructions[0]) as int,
                sign_extended(low_sixteen_bits(load_number(instructions[0]))) as i32,
            ),
            instructions.skip(1),
        )
    }
}

/// A machine that stands at the `done`-th of the `load` instructions whose
/// bytes are its program carries out the rest of them and stops at the
/// program's end.
proof fn lemma_loads_run_from(
    machine: VmState,
    instructions: Seq<AssemblerInstruction>,
    done: int,
)
    requires
        forall|k: int|
            0 <= k < instructions.len() ==> is_load(#[trigger] instructions[k]) && load_target(
                instructions[k],
            ) < REGISTER_COUNT,
        encoding_of(instructions) == Ok::<Seq<u8>, EncodeError>(machine.program),
        0 <= done <= instructions.len(),
        machine.pc == ENCODED_WIDTH * done,
    ensures
        machine.run_for((instructions.len() - done + 1) as nat) == (
            VmState {
                pc: ENCODED_WIDTH * instructions.len(),
                registers: registers_after(machine.registers, instructions.skip(done)),
                ..machine
            },
            Ok::<bool, ExecutionFault>(true),
        ),
    decreases instructions.len() - done,
{
    lemma_encoding_of_layout(instructions);
    if done < instructions.len() {
        let instruction = instructions[done];
        let rest = instructions.skip(done);
        assert(instruction == load_of(load_target(instruction), load_number(instruction)));
        lemma_assembled_load_executes(
            machine,
            load_target(instruction),
            load_number(instruction),
        );
        let next = machine.step().unwrap().0;
        lemma_loads_run_from(next, instructions, done + 1);
        assert(rest[0] == instruction);
        assert(rest.skip(1) =~= instructions.skip(done + 1));
    } else {
        assert(instructions.skip(done) =~= Seq::<AssemblerInstruction>::empty());
    }
}

/// A program of `load` instructions into registers that the machine has,
/// assembled and run from its first byte, carries out every `load` in its
/// order and then stops at the program's end, without a fault. Nothing but
/// the counter and the registers named has changed.
pub proof fn lemma_assembled_program_runs(
    machine: VmState,
    instructions: Seq<AssemblerInstruction>,
)
    requires
        forall|k: int|
            0 <= k < instructions.len() ==> is_load(#[trigger] instructions[k]) && load_target(
                instructions[k],
            ) < REGISTER_COUNT,
        encoding_of(instructions) == Ok::<Seq<u8>, EncodeError>(machine.program),
        machine.pc == 0,
    ensures
        machine.halts_within((instructions.len() + 1) as nat),
        machine.run() == (
            VmState {
                pc: ENCODED_WIDTH * instructions.len(),
                registers: registers_after(machine.registers, instructions),
                ..machine
            },
            Ok::<(), ExecutionFault>(()),
        ),
{
    lemma_loads_run_from(machine, instructions, 0);
    assert(instructions.skip(0) =~= instructions);
    machine.lemma_run((instructions.len() + 1) as nat);
}

} // verus!
