//! The machine: thirty-two registers, a program counter, the program's
//! bytes, the remainder of the last division and the result of the last
//! comparison.
//!
//! One cycle fetches the byte under the counter, decodes it and executes
//! the instruction it begins. [`VmState::step`] says what a cycle does;
//! [`VM::execute_instruction`] does it.

use crate::instruction::Opcode;
use vstd::prelude::*;

verus! {

/// How many registers the machine has.
pub const REGISTER_COUNT: usize = 32;

/// How many bytes an instruction with operands occupies.
pub const INSTRUCTION_WIDTH: usize = 4;

/// Why a cycle could not be carried out. A cycle that faults changes
/// nothing in the machine.
#[derive(Debug, Clone, Copy, PartialEq, Eq, Structural)]
pub enum ExecutionFault {
    /// The program ends before the instruction's three operand bytes do.
    TruncatedInstruction,
    /// An operand names a register that the machine does not have.
    RegisterOutOfRange,
    /// A jump leads past the program.
    JumpOutOfRange,
    /// A jump leads to before the program's first byte.
    NegativeJump,
    /// `DIV` with a divisor of zero.
    DivisionByZero,
    /// The result of `ADD`, `SUB`, `MUL` or `DIV` does not fit a register.
    ArithmeticOverflow,
}

/// The machine. Every field is open to the caller: a program is loaded by
/// assigning `program` or by [`VM::add_byte`], and the registers are read
/// from `registers`.
pub struct VM {
    pub registers: [i32; 32],
    pub pc: usize,
    pub program: Vec<u8>,
    pub remainder: u32,
    pub comparison_result: bool,
}

/// The machine as a mathematical value.
pub struct VmState {
    pub registers: Seq<i32>,
    pub pc: int,
    pub program: Seq<u8>,
    pub remainder: u32,
    pub comparison_result: bool,
}

impl View for VM {
    type V = VmState;

    open spec fn view(&self) -> VmState {
        VmState {
            registers: self.registers@,
            pc: self.pc as int,
            program: self.program@,
            remainder: self.remainder,
            comparison_result: self.comparison_result,
        }
    }
}

/// The quotient of `x` by `y`, rounded towards zero.
pub open spec fn truncating_quotient(x: int, y: int) -> int
    recommends
        y != 0,
{
    let magnitude = (if x < 0 { -x } else { x }) / (if y < 0 { -y } else { y });
    if (x < 0) == (y < 0) {
        magnitude
    } else {
        -magnitude
    }
}

/// What is left of `x` after dividing by `y` with rounding towards zero.
/// It has the sign of `x`, or is zero.
pub open spec fn truncating_remainder(x: int, y: int) -> int
    recommends
        y != 0,
{
    x - y * truncating_quotient(x, y)
}

/// A 32-bit two's complement number read as an unsigned one.
pub open spec fn as_unsigned(value: int) -> int
    recommends
        i32::MIN <= value <= i32::MAX,
{
    if value < 0 {
        value + 0x1_0000_0000
    } else {
        value
    }
}

/// Sixteen bits, given as a number from 0 to 65535, read as a number in two's
/// complement: from 32768 on they stand for the negative numbers from -32768
/// to -1.
pub open spec fn sign_extended(bits: int) -> int
    recommends
        0 <= bits < 0x1_0000,
{
    if bits >= 0x8000 {
        bits - 0x1_0000
    } else {
        bits
    }
}

/// The result of `ADD`, `SUB`, `MUL` or `DIV` on two register values, before
/// it is checked against a register's range.
pub open spec fn arithmetic_result(opcode: Opcode, x: int, y: int) -> int
    recommends
        opcode == Opcode::DIV ==> y != 0,
{
    match opcode {
        Opcode::ADD => x + y,
        Opcode::SUB => x - y,
        Opcode::MUL => x * y,
        _ => truncating_quotient(x, y),
    }
}

/// The result of one of the six comparisons on two register values.
pub open spec fn comparison(opcode: Opcode, x: int, y: int) -> bool {
    match opcode {
        Opcode::EQ => x == y,
        Opcode::NEQ => x != y,
        Opcode::GEQ => x >= y,
        Opcode::LEQ => x <= y,
        Opcode::GT => x > y,
        _ => x < y,
    }
}

/// The 24-bit number that the three operand bytes of a jump spell, most
/// significant byte first.
pub open spec fn jump_operand(a: u8, b: u8, c: u8) -> int {
    a * 0x1_0000 + b * 0x100 + c
}

/// The quotient and the remainder that round towards zero, in the terms in
/// which the checked division of the machine's integers is specified.
proof fn lemma_truncating_division(x: int, y: int)
    requires
        y != 0,
    ensures
        truncating_quotient(x, y) == (if x == 0 {
            0
        } else if x > 0 && y > 0 {
            x / y
        } else if x < 0 && y < 0 {
            ((x * -1) / (y * -1))
        } else if x < 0 {
            ((x * -1) / y) * -1
        } else {
            (x / (y * -1)) * -1
        }),
        truncating_remainder(x, y) == (if x == 0 {
            0
        } else if x > 0 && y > 0 {
            x % y
        } else if x < 0 && y < 0 {
            ((x * -1) % (y * -1)) * -1
        } else if x < 0 {
            ((x * -1) % y) * -1
        } else {
            x % (y * -1)
        }),
        y == -1 ==> truncating_quotient(x, y) == -x,
        -y < truncating_remainder(x, y) < y || y < truncating_remainder(x, y) < -y,
{
    let a = if x < 0 { -x } else { x };
    let b = if y < 0 { -y } else { y };
    let m = a / b;
    vstd::arithmetic::div_mod::lemma_fundamental_div_mod(a, b);
    vstd::arithmetic::div_mod::lemma_mod_pos_bound(a, b);
    if b == 1 {
        vstd::arithmetic::div_mod::lemma_div_basics(a);
    }
    if x == 0 {
        vstd::arithmetic::div_mod::lemma_div_basics(b);
    }
    assert(y * m == (if y < 0 { -(b * m) } else { b * m })) by (nonlinear_arith)
        requires
            b == (if y < 0 { -y } else { y }),
    ;
    assert(y * (-m) == -(y * m)) by (nonlinear_arith);
}

impl VmState {
    /// The state of a machine that has just been made.
    pub open spec fn initial() -> VmState {
        VmState {
            registers: Seq::new(REGISTER_COUNT as nat, |i: int| 0i32),
            pc: 0,
            program: Seq::empty(),
            remainder: 0,
            comparison_result: false,
        }
    }

    /// The same machine with the counter at `pc`.
    pub open spec fn at(self, pc: int) -> VmState {
        VmState { pc, ..self }
    }

    /// The same machine with `value` in register `index`.
    pub open spec fn with_register(self, index: int, value: i32) -> VmState {
        VmState { registers: self.registers.update(index, value), ..self }
    }

    /// The `k`-th operand byte of the instruction under the counter.
    pub open spec fn operand(self, k: int) -> u8
        recommends
            0 <= k < 3,
            0 <= self.pc,
            self.pc + INSTRUCTION_WIDTH <= self.program.len(),
    {
        self.program[self.pc + 1 + k]
    }

    /// `LOAD`: the register named by the first operand byte receives the
    /// sixteen bits that the other two spell, high byte first, extended by
    /// their sign to the width of the register.
    pub open spec fn load(self) -> Result<(VmState, bool), ExecutionFault> {
        let register = self.operand(0);
        let number = sign_extended(self.operand(1) * 0x100 + self.operand(2));
        if register >= REGISTER_COUNT {
            Err(ExecutionFault::RegisterOutOfRange)
        } else {
            Ok(
                (
                    self.with_register(register as int, number as i32).at(
                        self.pc + INSTRUCTION_WIDTH,
                    ),
                    false,
                ),
            )
        }
    }

    /// `ADD`, `SUB`, `MUL`, `DIV`: the operands name two source registers and
    /// the destination. `DIV` rounds towards zero and leaves the remainder,
    /// read as an unsigned number, in `remainder`.
    pub open spec fn arithmetic(self, opcode: Opcode) -> Result<(VmState, bool), ExecutionFault> {
        let a = self.operand(0);
        let b = self.operand(1);
        let c = self.operand(2);
        if a >= REGISTER_COUNT || b >= REGISTER_COUNT || c >= REGISTER_COUNT {
            Err(ExecutionFault::RegisterOutOfRange)
        } else {
            let x = self.registers[a as int] as int;
            let y = self.registers[b as int] as int;
            if opcode == Opcode::DIV && y == 0 {
                Err(ExecutionFault::DivisionByZero)
            } else {
                let result = arithmetic_result(opcode, x, y);
                if result < i32::MIN || result > i32::MAX {
                    Err(ExecutionFault::ArithmeticOverflow)
                } else {
                    let next = self.with_register(c as int, result as i32).at(
                        self.pc + INSTRUCTION_WIDTH,
                    );
                    if opcode == Opcode::DIV {
                        Ok(
                            (
                                VmState {
                                    remainder: as_unsigned(truncating_remainder(x, y)) as u32,
                                    ..next
                                },
                                false,
                            ),
                        )
                    } else {
                        Ok((next, false))
                    }
                }
            }
        }
    }

    /// `JMP`, `JMPF`, `JMPB`: the operands spell a number. `JMP` goes to it;
    /// `JMPF` goes that far forward, `JMPB` that far back, both counted from
    /// the end of the instruction. A jump must land inside the program.
    pub open spec fn jump(self, opcode: Opcode) -> Result<(VmState, bool), ExecutionFault> {
        let operand = jump_operand(self.operand(0), self.operand(1), self.operand(2));
        let after = self.pc + INSTRUCTION_WIDTH;
        match opcode {
            Opcode::JMP => {
                if operand >= self.program.len() {
                    Err(ExecutionFault::JumpOutOfRange)
                } else {
                    Ok((self.at(operand), false))
                }
            },
            Opcode::JMPF => {
                if after + operand >= self.program.len() {
                    Err(ExecutionFault::JumpOutOfRange)
                } else {
                    Ok((self.at(after + operand), false))
                }
            },
            _ => {
                if after - operand < 0 {
                    Err(ExecutionFault::NegativeJump)
                } else {
                    Ok((self.at(after - operand), false))
                }
            },
        }
    }

    /// `EQ`, `NEQ`, `GEQ`, `LEQ`, `GT`, `LT`: the first two operands name the
    /// registers to compare; the third is padding.
    pub open spec fn compare(self, opcode: Opcode) -> Result<(VmState, bool), ExecutionFault> {
        let a = self.operand(0);
        let b = self.operand(1);
        if a >= REGISTER_COUNT || b >= REGISTER_COUNT {
            Err(ExecutionFault::RegisterOutOfRange)
        } else {
            Ok(
                (
                    VmState {
                        comparison_result: comparison(
                            opcode,
                            self.registers[a as int] as int,
                            self.registers[b as int] as int,
                        ),
                        ..self.at(self.pc + INSTRUCTION_WIDTH)
                    },
                    false,
                ),
            )
        }
    }

    /// `JEQ`: the first operand names a register; the other two are padding.
    /// Where the last comparison held, the counter goes to the register's
    /// value, which may be the program's end but not beyond it.
    pub open spec fn jump_if_equal(self) -> Result<(VmState, bool), ExecutionFault> {
        let a = self.operand(0);
        if a >= REGISTER_COUNT {
            Err(ExecutionFault::RegisterOutOfRange)
        } else if self.comparison_result {
            let target = self.registers[a as int];
            if target < 0 {
                Err(ExecutionFault::NegativeJump)
            } else if target > self.program.len() {
                Err(ExecutionFault::JumpOutOfRange)
            } else {
                Ok((self.at(target as int), false))
            }
        } else {
            Ok((self.at(self.pc + INSTRUCTION_WIDTH), false))
        }
    }

    /// One cycle. `Ok` holds the machine after the cycle and whether it is to
    /// stop; `Err` says why the cycle could not be carried out, and the
    /// machine then stays as it was.
    ///
    /// A counter at or past the program's end stops the machine at once.
    /// `HLT` stops it after its own byte. So does every byte that begins no
    /// instruction the machine executes. Every other instruction needs its
    /// three operand bytes.
    pub open spec fn step(self) -> Result<(VmState, bool), ExecutionFault> {
        if self.pc < 0 || self.pc >= self.program.len() {
            Ok((self, true))
        } else {
            let opcode = Opcode::decode(self.program[self.pc]);
            match opcode {
                Opcode::HLT | Opcode::IGL | Opcode::JNEQ => Ok((self.at(self.pc + 1), true)),
                _ => {
                    if self.pc + INSTRUCTION_WIDTH > self.program.len() {
                        Err(ExecutionFault::TruncatedInstruction)
                    } else {
                        match opcode {
                            Opcode::LOAD => self.load(),
                            Opcode::ADD | Opcode::SUB | Opcode::MUL | Opcode::DIV => self.arithmetic(
                                opcode,
                            ),
                            Opcode::JMP | Opcode::JMPF | Opcode::JMPB => self.jump(opcode),
                            Opcode::JEQ => self.jump_if_equal(),
                            _ => self.compare(opcode),
                        }
                    }
                },
            }
        }
    }
}

impl VmState {
    /// The machine after cycle upon cycle, until one says to stop, one
    /// faults, or `cycles` of them are done; and how that ended: `Ok(true)`
    /// after a cycle that said to stop, `Ok(false)` where the cycles ran out
    /// first, and the fault after a cycle that faulted.
    pub open spec fn run_for(self, cycles: nat) -> (VmState, Result<bool, ExecutionFault>)
        decreases cycles,
    {
        if cycles == 0 {
            (self, Ok(false))
        } else {
            match self.step() {
                Err(fault) => (self, Err(fault)),
                Ok((next, stop)) => if stop {
                    (next, Ok(true))
                } else {
                    next.run_for((cycles - 1) as nat)
                },
            }
        }
    }

    /// Whether the machine stops or faults within `cycles` cycles.
    pub open spec fn halts_within(self, cycles: nat) -> bool {
        self.run_for(cycles).1 != Ok::<bool, ExecutionFault>(false)
    }

    /// Whether the machine ever stops or faults.
    pub open spec fn halts(self) -> bool {
        exists|cycles: nat| self.halts_within(cycles)
    }

    /// The machine after running until it stops or faults, and the fault, if
    /// that is how it ended. It means something only of a machine that halts.
    pub open spec fn run(self) -> (VmState, Result<(), ExecutionFault>)
        recommends
            self.halts(),
    {
        let (end, outcome) = self.run_for(choose|cycles: nat| self.halts_within(cycles));
        match outcome {
            Ok(_) => (end, Ok(())),
            Err(fault) => (end, Err(fault)),
        }
    }

    /// The machine after `count` cycles, one after the other, whatever each
    /// of them said.
    pub open spec fn after_cycles(self, count: nat) -> VmState
        decreases count,
    {
        if count == 0 {
            self
        } else {
            match self.step() {
                Err(_) => self,
                Ok((next, _)) => next.after_cycles((count - 1) as nat),
            }
        }
    }

    /// A machine that halts within some number of cycles runs to the same
    /// end whatever number of cycles it is given within which it halts.
    pub proof fn lemma_run_for_agrees(self, one: nat, other: nat)
        requires
            self.halts_within(one),
            self.halts_within(other),
        ensures
            self.run_for(one) == self.run_for(other),
        decreases one,
    {
        match self.step() {
            Err(_) => {},
            Ok((next, stop)) => {
                if !stop {
                    next.lemma_run_for_agrees((one - 1) as nat, (other - 1) as nat);
                }
            },
        }
    }

    /// Running a machine that halts within `cycles` cycles is running it for
    /// `cycles` cycles.
    pub proof fn lemma_run(self, cycles: nat)
        requires
            self.halts_within(cycles),
        ensures
            self.halts(),
            self.run().0 == self.run_for(cycles).0,
            self.run().1 == (match self.run_for(cycles).1 {
                Ok(_) => Ok::<(), ExecutionFault>(()),
                Err(fault) => Err(fault),
            }),
    {
        let chosen = choose|cycles: nat| self.halts_within(cycles);
        self.lemma_run_for_agrees(chosen, cycles);
    }

    /// A cycle that neither stops nor faults leaves a machine that halts one
    /// cycle sooner and runs to the same end.
    pub proof fn lemma_run_continues(self, cycles: nat)
        requires
            self.halts_within(cycles),
            self.step() matches Ok((_, stop)) && !stop,
        ensures
            cycles > 0,
            self.step().unwrap().0.halts_within((cycles - 1) as nat),
            self.step().unwrap().0.run() == self.run(),
    {
        let next = self.step().unwrap().0;
        self.lemma_run(cycles);
        next.lemma_run((cycles - 1) as nat);
    }

    /// `HLT` stops the machine, moves the counter past its own byte and
    /// changes nothing else.
    pub proof fn lemma_halt(self)
        requires
            0 <= self.pc < self.program.len(),
            Opcode::decode(self.program[self.pc]) == Opcode::HLT,
        ensures
            self.step() == Ok::<(VmState, bool), ExecutionFault>((self.at(self.pc + 1), true)),
            self.halts_within(1),
            self.run() == (self.at(self.pc + 1), Ok::<(), ExecutionFault>(())),
    {
        self.lemma_run(1);
    }

    /// Cycle after cycle on a stretch of `HLT` bytes moves the counter on by
    /// one byte each time, never further, and changes nothing else: the
    /// registers stay as they were.
    pub proof fn lemma_halt_repeated(self, count: nat)
        requires
            0 <= self.pc,
            self.pc + count <= self.program.len(),
            forall|i: int|
                self.pc <= i < self.pc + count ==> Opcode::decode(#[trigger] self.program[i])
                    == Opcode::HLT,
        ensures
            self.after_cycles(count) == self.at(self.pc + count),
            self.after_cycles(count).registers == self.registers,
        decreases count,
    {
        if count > 0 {
            assert(Opcode::decode(self.program[self.pc]) == Opcode::HLT);
            let next = self.at(self.pc + 1);
            next.lemma_halt_repeated((count - 1) as nat);
            assert(next.at(next.pc + (count - 1)) == self.at(self.pc + count));
        } else {
            assert(self.at(self.pc) == self);
        }
    }

    /// A byte that begins no instruction the machine executes stops it like
    /// `HLT`: the counter moves past that byte and nothing else changes.
    pub proof fn lemma_unrecognized_stops(self)
        requires
            0 <= self.pc < self.program.len(),
            self.program[self.pc] >= 16,
        ensures
            self.step() == Ok::<(VmState, bool), ExecutionFault>((self.at(self.pc + 1), true)),
            self.run() == (self.at(self.pc + 1), Ok::<(), ExecutionFault>(())),
    {
        self.lemma_run(1);
    }

    /// A cycle changes neither the program nor the number of registers, and
    /// leaves the counter inside the program or at its end if it was there
    /// before.
    pub proof fn lemma_step_keeps_shape(self)
        requires
            self.registers.len() == REGISTER_COUNT,
            0 <= self.pc <= self.program.len(),
        ensures
            self.step() matches Ok((next, _)) ==> {
                &&& next.program == self.program
                &&& next.registers.len() == REGISTER_COUNT
                &&& 0 <= next.pc <= next.program.len()
            },
    {
    }
}

impl VM {
    /// A machine with every register at zero, the counter at zero, no
    /// program, no remainder and a comparison result of `false`.
    pub fn new() -> (vm: VM)
        ensures
            vm@ == VmState::initial(),
    {
        let vm = VM {
            registers: [0;32],
            pc: 0,
            program: Vec::new(),
            remainder: 0,
            comparison_result: false,
        };
        assert(vm@.registers =~= VmState::initial().registers);
        vm
    }

    /// Whether the three operand bytes of the instruction whose opcode was
    /// just read are there.
    fn has_operands(&self) -> (present: bool)
        requires
            1 <= self.pc <= self.program.len(),
        ensures
            present == (self.pc - 1 + INSTRUCTION_WIDTH <= self.program.len()),
    {
        self.program.len() - self.pc >= INSTRUCTION_WIDTH - 1
    }

    /// Reads the byte under the counter as an opcode and moves the counter
    /// past it.
    fn decode_opcode(&mut self) -> (opcode: Opcode)
        requires
            old(self).pc < old(self).program.len(),
        ensures
            opcode == Opcode::decode(old(self).program[old(self).pc as int]),
            final(self)@ == old(self)@.at(old(self).pc + 1),
    {
        let opcode = Opcode::from(self.program[self.pc]);
        self.pc += 1;
        opcode
    }

    /// Reads the byte under the counter and moves the counter past it.
    fn next_8_bits(&mut self) -> (byte: u8)
        requires
            old(self).pc < old(self).program.len(),
        ensures
            byte == old(self).program[old(self).pc as int],
            final(self)@ == old(self)@.at(old(self).pc + 1),
    {
        let result = self.program[self.pc];
        self.pc += 1;
        result
    }

    /// Reads the two bytes under the counter as one number, high byte
    /// first, and moves the counter past them.
    fn next_16_bits(&mut self) -> (number: u16)
        requires
            old(self).pc + 1 < old(self).program.len(),
        ensures
            number == old(self).program[old(self).pc as int] * 0x100 + old(self).program[old(
                self,
            ).pc + 1],
            final(self)@ == old(self)@.at(old(self).pc + 2),
    {
        let high = self.program[self.pc];
        let low = self.program[self.pc + 1];
        let first_part = (high as u16) << 8;
        let second_part = low as u16;
        self.pc += 2;
        assert(((high as u16) << 8) | (low as u16) == (high as u16) * 0x100 + (low as u16))
            by (bit_vector);
        first_part | second_part
    }

    /// The machine as it was before the opcode byte in front of the counter
    /// was read.
    spec fn before_opcode(&self) -> VmState {
        self@.at(self.pc - 1)
    }

    /// Whether the opcode byte of an instruction has been read and its three
    /// operand bytes lie ahead.
    spec fn at_operands(&self) -> bool {
        1 <= self.pc && self.pc - 1 + INSTRUCTION_WIDTH <= self.program.len()
    }

    /// Whether `self` is what `expected` says the cycle on `before` leads to,
    /// given that the cycle reported `outcome`. After a fault only the
    /// counter may differ: `execute_instruction` puts it back.
    spec fn carried_out(
        &self,
        before: VmState,
        outcome: Result<bool, ExecutionFault>,
        expected: Result<(VmState, bool), ExecutionFault>,
    ) -> bool {
        match outcome {
            Ok(stop) => expected == Ok::<(VmState, bool), ExecutionFault>((self@, stop)),
            Err(fault) => expected == Err::<(VmState, bool), ExecutionFault>(fault)
                && self@.at(before.pc) == before,
        }
    }

    /// Carries out `LOAD` from its operands on: see [`VmState::load`].
    fn execute_load(&mut self) -> (outcome: Result<bool, ExecutionFault>)
        requires
            old(self).at_operands(),
        ensures
            final(self).carried_out(
                old(self).before_opcode(),
                outcome,
                old(self).before_opcode().load(),
            ),
    {
        let register = self.next_8_bits() as usize;
        let number = self.next_16_bits();
        if register >= REGISTER_COUNT {
            return Err(ExecutionFault::RegisterOutOfRange);
        }
        self.registers[register] = if number >= 0x8000 {
            number as i32 - 0x1_0000
        } else {
            number as i32
        };
        Ok(false)
    }

    /// Carries out `ADD`, `SUB`, `MUL` or `DIV` from its operands on: see
    /// [`VmState::arithmetic`].
    fn execute_arithmetic(&mut self, opcode: Opcode) -> (outcome: Result<bool, ExecutionFault>)
        requires
            old(self).at_operands(),
            opcode == Opcode::ADD || opcode == Opcode::SUB || opcode == Opcode::MUL || opcode
                == Opcode::DIV,
        ensures
            final(self).carried_out(
                old(self).before_opcode(),
                outcome,
                old(self).before_opcode().arithmetic(opcode),
            ),
    {
        let source_1 = self.next_8_bits() as usize;
        let source_2 = self.next_8_bits() as usize;
        let destination = self.next_8_bits() as usize;
        if source_1 >= REGISTER_COUNT || source_2 >= REGISTER_COUNT || destination
            >= REGISTER_COUNT {
            return Err(ExecutionFault::RegisterOutOfRange);
        }
        let number_1 = self.registers[source_1];
        let number_2 = self.registers[source_2];
        if opcode == Opcode::DIV && number_2 == 0 {
            return Err(ExecutionFault::DivisionByZero);
        }
        proof {
            if number_2 != 0 {
                lemma_truncating_division(number_1 as int, number_2 as int);
            }
        }
        let result = match opcode {
            Opcode::ADD => number_1.checked_add(number_2),
            Opcode::SUB => number_1.checked_sub(number_2),
            Opcode::MUL => number_1.checked_mul(number_2),
            _ => number_1.checked_div(number_2),
        };
        let ghost exact = arithmetic_result(opcode, number_1 as int, number_2 as int);
        assert(result == (if exact < i32::MIN || exact > i32::MAX {
            None
        } else {
            Some(exact as i32)
        }));
        match result {
            None => Err(ExecutionFault::ArithmeticOverflow),
            Some(value) => {
                if opcode == Opcode::DIV {
                    let rest = number_1.checked_rem(number_2);
                    assert(rest == Some(
                        truncating_remainder(number_1 as int, number_2 as int) as i32,
                    ));
                    if let Some(rest) = rest {
                        assert(#[verifier::truncate] (rest as u32) == as_unsigned(rest as int))
                            by (bit_vector);
                        self.remainder = #[verifier::truncate] (rest as u32);
                    }
                }
                self.registers[destination] = value;
                Ok(false)
            },
        }
    }

    /// Carries out `JMP`, `JMPF` or `JMPB` from its operands on: see
    /// [`VmState::jump`].
    fn execute_jump(&mut self, opcode: Opcode) -> (outcome: Result<bool, ExecutionFault>)
        requires
            old(self).at_operands(),
            opcode == Opcode::JMP || opcode == Opcode::JMPF || opcode == Opcode::JMPB,
        ensures
            final(self).carried_out(
                old(self).before_opcode(),
                outcome,
                old(self).before_opcode().jump(opcode),
            ),
    {
        let high = self.next_16_bits();
        let low = self.next_8_bits();
        assert((((high as u32) << 8) | (low as u32)) == (high as u32) * 0x100 + (low as u32))
            by (bit_vector);
        let step_to_jump = ((high as u32) << 8 | low as u32) as usize;
        match opcode {
            Opcode::JMP => {
                if step_to_jump >= self.program.len() {
                    return Err(ExecutionFault::JumpOutOfRange);
                }
                self.pc = step_to_jump;
            },
            Opcode::JMPF => {
                if step_to_jump >= self.program.len() - self.pc {
                    return Err(ExecutionFault::JumpOutOfRange);
                }
                self.pc += step_to_jump;
            },
            _ => {
                if step_to_jump > self.pc {
                    return Err(ExecutionFault::NegativeJump);
                }
                self.pc -= step_to_jump;
            },
        }
        Ok(false)
    }

    /// Carries out one of the six comparisons from its operands on: see
    /// [`VmState::compare`].
    fn execute_compare(&mut self, opcode: Opcode) -> (outcome: Result<bool, ExecutionFault>)
        requires
            old(self).at_operands(),
            opcode == Opcode::EQ || opcode == Opcode::NEQ || opcode == Opcode::GEQ || opcode
                == Opcode::LEQ || opcode == Opcode::GT || opcode == Opcode::LT,
        ensures
            final(self).carried_out(
                old(self).before_opcode(),
                outcome,
                old(self).before_opcode().compare(opcode),
            ),
    {
        let register_1 = self.next_8_bits() as usize;
        let register_2 = self.next_8_bits() as usize;
        self.next_8_bits();
        if register_1 >= REGISTER_COUNT || register_2 >= REGISTER_COUNT {
            return Err(ExecutionFault::RegisterOutOfRange);
        }
        let value_1 = self.registers[register_1];
        let value_2 = self.registers[register_2];
        self.comparison_result = match opcode {
            Opcode::EQ => value_1 == value_2,
            Opcode::NEQ => value_1 != value_2,
            Opcode::GEQ => value_1 >= value_2,
            Opcode::LEQ => value_1 <= value_2,
            Opcode::GT => value_1 > value_2,
            _ => value_1 < value_2,
        };
        Ok(false)
    }

    /// Carries out `JEQ` from its operands on: see
    /// [`VmState::jump_if_equal`].
    fn execute_jump_if_equal(&mut self) -> (outcome: Result<bool, ExecutionFault>)
        requires
            old(self).at_operands(),
        ensures
            final(self).carried_out(
                old(self).before_opcode(),
                outcome,
                old(self).before_opcode().jump_if_equal(),
            ),
    {
        let register_index = self.next_8_bits() as usize;
        self.next_16_bits();
        if register_index >= REGISTER_COUNT {
            return Err(ExecutionFault::RegisterOutOfRange);
        }
        let step_to_jump = self.registers[register_index];
        if self.comparison_result {
            if step_to_jump < 0 {
                return Err(ExecutionFault::NegativeJump);
            }
            if step_to_jump as usize > self.program.len() {
                return Err(ExecutionFault::JumpOutOfRange);
            }
            self.pc = step_to_jump as usize;
        }
        Ok(false)
    }

    /// Carries out one cycle, as [`VmState::step`] describes it, and says
    /// whether the machine is to stop. On a fault the machine is left as it
    /// was before the cycle.
    pub fn execute_instruction(&mut self) -> (outcome: Result<bool, ExecutionFault>)
        ensures
            match outcome {
                Ok(stop) => old(self)@.step() == Ok::<(VmState, bool), ExecutionFault>(
                    (final(self)@, stop),
                ),
                Err(fault) => old(self)@.step() == Err::<(VmState, bool), ExecutionFault>(fault)
                    && final(self)@ == old(self)@,
            },
    {
        if self.pc >= self.program.len() {
            return Ok(true);
        }
        let start = self.pc;
        let opcode = self.decode_opcode();
        let outcome = match opcode {
            Opcode::HLT | Opcode::IGL | Opcode::JNEQ => Ok(true),
            _ => {
                if !self.has_operands() {
                    Err(ExecutionFault::TruncatedInstruction)
                } else {
                    match opcode {
                        Opcode::LOAD => self.execute_load(),
                        Opcode::ADD | Opcode::SUB | Opcode::MUL | Opcode::DIV => {
                            self.execute_arithmetic(opcode)
                        },
                        Opcode::JMP | Opcode::JMPF | Opcode::JMPB => self.execute_jump(opcode),
                        Opcode::JEQ => self.execute_jump_if_equal(),
                        _ => self.execute_compare(opcode),
                    }
                }
            },
        };
        if outcome.is_err() {
            self.pc = start;
        }
        outcome
    }

    /// Carries out cycle upon cycle until one says to stop or faults, and
    /// returns the fault if there was one. The machine is then as
    /// [`VmState::run`] says; after a fault it is as it was before the cycle
    /// that faulted.
    ///
    /// A program may loop for ever, and the call then never returns. What is
    /// stated here is stated of a machine that halts; for any other, see
    /// [`VM::run_for`].
    pub fn run(&mut self) -> (outcome: Result<(), ExecutionFault>)
        requires
            old(self)@.halts(),
        ensures
            old(self)@.run() == (final(self)@, outcome),
    {
        let ghost mut cycles: nat = choose|cycles: nat| old(self)@.halts_within(cycles);
        loop
            invariant
                self@.halts_within(cycles),
                self@.run() == old(self)@.run(),
            decreases cycles,
        {
            proof {
                self@.lemma_run(cycles);
            }
            let ghost before = self@;
            match self.execute_instruction() {
                Err(fault) => {
                    return Err(fault);
                },
                Ok(true) => {
                    return Ok(());
                },
                Ok(false) => {
                    proof {
                        before.lemma_run_continues(cycles);
                        cycles = (cycles - 1) as nat;
                    }
                },
            }
        }
    }

    /// Carries out up to `cycles` cycles and ends like [`VM::run`] at the
    /// first that says to stop or faults. `Ok(true)` says that the machine
    /// stopped, `Ok(false)` that the cycles ran out first.
    pub fn run_for(&mut self, cycles: usize) -> (outcome: Result<bool, ExecutionFault>)
        ensures
            old(self)@.run_for(cycles as nat) == (final(self)@, outcome),
    {
        let mut left = cycles;
        while left > 0
            invariant
                self@.run_for(left as nat) == old(self)@.run_for(cycles as nat),
            decreases left,
        {
            match self.execute_instruction() {
                Err(fault) => {
                    return Err(fault);
                },
                Ok(true) => {
                    return Ok(true);
                },
                Ok(false) => {},
            }
            left -= 1;
        }
        Ok(false)
    }

    /// Carries out one cycle: see [`VM::execute_instruction`].
    pub fn run_once(&mut self) -> (outcome: Result<bool, ExecutionFault>)
        ensures
            match outcome {
                Ok(stop) => old(self)@.step() == Ok::<(VmState, bool), ExecutionFault>(
                    (final(self)@, stop),
                ),
                Err(fault) => old(self)@.step() == Err::<(VmState, bool), ExecutionFault>(fault)
                    && final(self)@ == old(self)@,
            },
    {
        self.execute_instruction()
    }

    /// Appends one byte to the program.
    pub fn add_byte(&mut self, byte: u8)
        ensures
            final(self)@ == (VmState { program: old(self)@.program.push(byte), ..old(self)@ }),
    {
        self.program.push(byte);
    }
}

} // verus!
