use kural::vm::{ExecutionFault, VM};

#[test]
fn test_create_vm() {
    let test_vm = VM::new();
    assert_eq!(test_vm.registers[0], 0);
}

#[test]
fn test_opcode_hlt() {
    let mut test_vm = VM::new();
    let test_bytes = vec![0, 0, 0, 0];
    test_vm.program = test_bytes;
    test_vm.run();
    assert_eq!(test_vm.pc, 1);
}

#[test]
fn test_opcode_igl() {
    let mut test_vm = VM::new();
    let test_bytes = vec![200, 0, 0, 0];
    test_vm.program = test_bytes;
    test_vm.run();
    assert_eq!(test_vm.pc, 1);
}

#[test]
fn test_load_opcode() {
    let mut test_vm = VM::new();
    test_vm.program = vec![1, 0, 1, 244];
    test_vm.run();
    assert_eq!(test_vm.registers[0], 500);
}

#[test]
fn test_jmp_absolute_opcode() {
    let mut test_vm = VM::new();
    test_vm.program = vec![6, 0, 0, 1];
    test_vm.run_once();
    assert_eq!(test_vm.pc, 1);
}

#[test]
fn test_jmp_relative_forward_opcode() {
    let mut test_vm = VM::new();
    test_vm.program = vec![7, 0, 0, 1, 1, 0, 0, 1];
    test_vm.run_once();
    assert_eq!(test_vm.pc, 5);
}

#[test]
fn test_jmp_relative_backward_opcode() {
    let mut test_vm = VM::new();
    test_vm.program = vec![8, 0, 0, 2];
    test_vm.run_once();
    assert_eq!(test_vm.pc, 2);
}

#[test]
fn test_eq_opcode() {
    let mut test_vm = VM::new();
    test_vm.registers[1] = 20;
    test_vm.registers[2] = 20;
    test_vm.registers[3] = 21;

    test_vm.program = vec![9, 1, 3, 0, 9, 1, 2, 0];

    // check not equal to
    test_vm.run_once();
    assert_eq!(test_vm.comparison_result, false);

    // check equal to
    test_vm.run_once();
    assert_eq!(test_vm.comparison_result, true);
}

#[test]
fn test_neq_opcode() {
    let mut test_vm = VM::new();
    test_vm.registers[1] = 20;
    test_vm.registers[2] = 20;
    test_vm.registers[3] = 21;

    test_vm.program = vec![10, 1, 2, 0, 10, 2, 3, 0];

    // check equal to
    test_vm.run_once();
    assert_eq!(test_vm.comparison_result, false);

    // check not equal to
    test_vm.run_once();
    assert_eq!(test_vm.comparison_result, true);
}

#[test]
fn test_jeq_opcode() {
    let mut test_vm = VM::new();
    test_vm.registers[0] = 10;

    test_vm.program = vec![11, 0, 0, 0, 11, 0, 0, 0, 1, 1, 0, 10];

    // check no jump when not equals
    test_vm.run_once();
    assert_eq!(test_vm.pc, 4);

    // check jump when equals
    test_vm.comparison_result = true;
    test_vm.run_once();
    assert_eq!(test_vm.pc, 10);
}

#[test]
fn test_geq_opcode() {
    let mut test_vm = VM::new();
    test_vm.registers[1] = 22;
    test_vm.registers[2] = 20;
    test_vm.registers[3] = 21;
    test_vm.registers[4] = 21;

    test_vm.program = vec![12, 2, 3, 0, 12, 1, 2, 0, 12, 3, 4, 0];

    // check not greater than or equal to
    test_vm.run_once();
    assert_eq!(test_vm.comparison_result, false);

    // check greater than
    test_vm.run_once();
    assert_eq!(test_vm.comparison_result, true);

    // check equals
    test_vm.run_once();
    assert_eq!(test_vm.comparison_result, true);
}

#[test]
fn test_leq_opcode() {
    let mut test_vm = VM::new();
    test_vm.registers[1] = 22;
    test_vm.registers[2] = 20;
    test_vm.registers[3] = 21;
    test_vm.registers[4] = 21;

    test_vm.program = vec![13, 1, 2, 0, 13, 2, 3, 0, 13, 3, 4, 0];

    // check not less than or equal to
    test_vm.run_once();
    assert_eq!(test_vm.comparison_result, false);

    // check less than
    test_vm.run_once();
    assert_eq!(test_vm.comparison_result, true);

    // check equals
    test_vm.run_once();
    assert_eq!(test_vm.comparison_result, true);
}

#[test]
fn test_gt_opcode() {
    let mut test_vm = VM::new();
    test_vm.registers[1] = 20;
    test_vm.registers[2] = 21;

    test_vm.program = vec![14, 1, 2, 0, 14, 2, 1, 0];

    // check not greater than
    test_vm.run_once();
    assert_eq!(test_vm.comparison_result, false);

    // check greater than
    test_vm.run_once();
    assert_eq!(test_vm.comparison_result, true);
}

#[test]
fn test_lt_opcode() {
    let mut test_vm = VM::new();
    test_vm.registers[1] = 20;
    test_vm.registers[2] = 21;

    test_vm.program = vec![15, 2, 1, 0, 15, 1, 2, 0];

    // check not less than
    test_vm.run_once();
    assert_eq!(test_vm.comparison_result, false);

    // check less than
    test_vm.run_once();
    assert_eq!(test_vm.comparison_result, true);
}

fn machine(program: Vec<u8>) -> VM {
    let mut vm = VM::new();
    vm.program = program;
    vm
}

fn unchanged_but_for_counter(vm: &VM) -> bool {
    vm.registers == [0; 32] && vm.remainder == 0 && !vm.comparison_result
}

#[test]
fn new_machine_is_blank() {
    let vm = VM::new();
    assert_eq!(vm.registers, [0; 32]);
    assert_eq!(vm.pc, 0);
    assert_eq!(vm.program, Vec::<u8>::new());
    assert_eq!(vm.remainder, 0);
    assert_eq!(vm.comparison_result, false);
}

#[test]
fn add_byte_appends() {
    let mut vm = VM::new();
    vm.add_byte(1);
    vm.add_byte(0);
    vm.add_byte(1);
    vm.add_byte(244);
    assert_eq!(vm.program, vec![1, 0, 1, 244]);
    assert_eq!(vm.pc, 0);
}

#[test]
fn empty_program_stops_without_fetching() {
    let mut vm = VM::new();
    assert_eq!(vm.run_once(), Ok(true));
    assert_eq!(vm.pc, 0);
    assert_eq!(vm.run(), Ok(()));
    assert_eq!(vm.pc, 0);
}

#[test]
fn counter_past_the_end_stops_without_fetching() {
    let mut vm = machine(vec![1, 0, 0, 5]);
    vm.pc = 9;
    assert_eq!(vm.execute_instruction(), Ok(true));
    assert_eq!(vm.pc, 9);
    assert!(unchanged_but_for_counter(&vm));
}

#[test]
fn hlt_stops_after_its_own_byte() {
    let mut vm = machine(vec![0, 0, 0, 0]);
    assert_eq!(vm.run_once(), Ok(true));
    assert_eq!(vm.pc, 1);
    assert!(unchanged_but_for_counter(&vm));
}

#[test]
fn hlt_again_and_again_moves_one_byte_each_time() {
    let mut vm = machine(vec![0, 0, 0, 0]);
    vm.registers[7] = 77;
    for expected in 1..=4 {
        assert_eq!(vm.run_once(), Ok(true));
        assert_eq!(vm.pc, expected);
        assert_eq!(vm.registers[7], 77);
    }
    assert_eq!(vm.run_once(), Ok(true));
    assert_eq!(vm.pc, 4);
    assert_eq!(vm.registers[7], 77);
}

#[test]
fn undefined_opcode_stops_and_changes_no_register() {
    let mut vm = machine(vec![200, 0, 0, 0]);
    assert_eq!(vm.run(), Ok(()));
    assert_eq!(vm.pc, 1);
    assert!(unchanged_but_for_counter(&vm));
}

#[test]
fn jneq_is_not_executed() {
    let mut vm = machine(vec![16, 0, 0, 0]);
    assert_eq!(vm.run_once(), Ok(true));
    assert_eq!(vm.pc, 1);
    assert!(unchanged_but_for_counter(&vm));
}

#[test]
fn load_reads_sixteen_bits_high_byte_first() {
    let mut vm = machine(vec![1, 0, 1, 244]);
    assert_eq!(vm.run_once(), Ok(false));
    assert_eq!(vm.registers[0], 500);
    assert_eq!(vm.pc, 4);
    assert_eq!(vm.run_once(), Ok(true));
    assert_eq!(vm.pc, 4);
}

#[test]
fn load_extends_the_sign_of_its_sixteen_bits() {
    let mut vm = machine(vec![1, 31, 255, 255]);
    assert_eq!(vm.run_once(), Ok(false));
    assert_eq!(vm.registers[31], -1);

    let mut vm = machine(vec![1, 31, 127, 255]);
    assert_eq!(vm.run_once(), Ok(false));
    assert_eq!(vm.registers[31], 32767);

    let mut vm = machine(vec![1, 31, 128, 0]);
    assert_eq!(vm.run_once(), Ok(false));
    assert_eq!(vm.registers[31], -32768);
}

#[test]
fn load_into_a_missing_register_faults() {
    let mut vm = machine(vec![1, 32, 0, 5]);
    assert_eq!(vm.run_once(), Err(ExecutionFault::RegisterOutOfRange));
    assert_eq!(vm.pc, 0);
    assert!(unchanged_but_for_counter(&vm));
}

#[test]
fn truncated_instruction_faults() {
    let mut vm = machine(vec![1, 0, 1]);
    assert_eq!(vm.run_once(), Err(ExecutionFault::TruncatedInstruction));
    assert_eq!(vm.pc, 0);
    let mut vm = machine(vec![0, 0, 0, 0, 2, 1]);
    vm.pc = 4;
    assert_eq!(vm.run(), Err(ExecutionFault::TruncatedInstruction));
    assert_eq!(vm.pc, 4);
}

#[test]
fn add_sub_mul() {
    let mut vm = machine(vec![2, 0, 1, 2, 3, 0, 1, 3, 4, 0, 1, 4]);
    vm.registers[0] = 7;
    vm.registers[1] = -3;
    assert_eq!(vm.run_once(), Ok(false));
    assert_eq!(vm.registers[2], 4);
    assert_eq!(vm.run_once(), Ok(false));
    assert_eq!(vm.registers[3], 10);
    assert_eq!(vm.run_once(), Ok(false));
    assert_eq!(vm.registers[4], -21);
    assert_eq!(vm.pc, 12);
    assert_eq!(vm.remainder, 0);
}

#[test]
fn div_rounds_towards_zero_and_keeps_the_remainder() {
    let mut vm = machine(vec![5, 0, 1, 2]);
    vm.registers[0] = 17;
    vm.registers[1] = 5;
    assert_eq!(vm.run_once(), Ok(false));
    assert_eq!(vm.registers[2], 3);
    assert_eq!(vm.remainder, 2);

    let mut vm = machine(vec![5, 0, 1, 2]);
    vm.registers[0] = -7;
    vm.registers[1] = 2;
    assert_eq!(vm.run_once(), Ok(false));
    assert_eq!(vm.registers[2], -3);
    assert_eq!(vm.remainder, 4294967295);

    let mut vm = machine(vec![5, 0, 1, 2]);
    vm.registers[0] = 7;
    vm.registers[1] = -2;
    assert_eq!(vm.run_once(), Ok(false));
    assert_eq!(vm.registers[2], -3);
    assert_eq!(vm.remainder, 1);

    let mut vm = machine(vec![5, 0, 1, 2]);
    vm.registers[0] = -7;
    vm.registers[1] = -2;
    assert_eq!(vm.run_once(), Ok(false));
    assert_eq!(vm.registers[2], 3);
    assert_eq!(vm.remainder, 4294967295);
}

#[test]
fn div_by_zero_faults() {
    let mut vm = machine(vec![5, 0, 1, 2]);
    vm.registers[0] = 17;
    assert_eq!(vm.run_once(), Err(ExecutionFault::DivisionByZero));
    assert_eq!(vm.pc, 0);
    assert_eq!(vm.registers[2], 0);
    assert_eq!(vm.remainder, 0);
}

#[test]
fn overflow_faults() {
    let mut vm = machine(vec![2, 0, 1, 2]);
    vm.registers[0] = i32::MAX;
    vm.registers[1] = 1;
    assert_eq!(vm.run_once(), Err(ExecutionFault::ArithmeticOverflow));
    assert_eq!(vm.registers[2], 0);
    assert_eq!(vm.pc, 0);

    let mut vm = machine(vec![3, 0, 1, 2]);
    vm.registers[0] = i32::MIN;
    vm.registers[1] = 1;
    assert_eq!(vm.run_once(), Err(ExecutionFault::ArithmeticOverflow));

    let mut vm = machine(vec![4, 0, 1, 2]);
    vm.registers[0] = 65536;
    vm.registers[1] = 65536;
    assert_eq!(vm.run_once(), Err(ExecutionFault::ArithmeticOverflow));

    let mut vm = machine(vec![5, 0, 1, 2]);
    vm.registers[0] = i32::MIN;
    vm.registers[1] = -1;
    assert_eq!(vm.run_once(), Err(ExecutionFault::ArithmeticOverflow));
    assert_eq!(vm.remainder, 0);
}

#[test]
fn arithmetic_on_a_missing_register_faults() {
    for program in [vec![2, 32, 1, 2], vec![3, 0, 40, 2], vec![4, 0, 1, 255], vec![5, 99, 1, 2]] {
        let mut vm = machine(program);
        vm.registers[1] = 1;
        assert_eq!(vm.run_once(), Err(ExecutionFault::RegisterOutOfRange));
        assert_eq!(vm.pc, 0);
    }
}

#[test]
fn jump_operand_is_twenty_four_bits_wide() {
    let mut program = vec![0u8; 0x01_02_04];
    program[0] = 6;
    program[1] = 1;
    program[2] = 2;
    program[3] = 3;
    let mut vm = machine(program);
    assert_eq!(vm.run_once(), Ok(false));
    assert_eq!(vm.pc, 0x01_02_03);
}

#[test]
fn jump_past_the_program_faults() {
    let mut vm = machine(vec![6, 0, 0, 4]);
    assert_eq!(vm.run_once(), Err(ExecutionFault::JumpOutOfRange));
    assert_eq!(vm.pc, 0);

    let mut vm = machine(vec![6, 0, 0, 3]);
    assert_eq!(vm.run_once(), Ok(false));
    assert_eq!(vm.pc, 3);

    let mut vm = machine(vec![7, 0, 0, 0]);
    assert_eq!(vm.run_once(), Err(ExecutionFault::JumpOutOfRange));
    assert_eq!(vm.pc, 0);

    let mut vm = machine(vec![7, 0, 0, 0, 0]);
    assert_eq!(vm.run_once(), Ok(false));
    assert_eq!(vm.pc, 4);
}

#[test]
fn jump_back_before_the_program_faults() {
    let mut vm = machine(vec![8, 0, 0, 5]);
    assert_eq!(vm.run_once(), Err(ExecutionFault::NegativeJump));
    assert_eq!(vm.pc, 0);

    let mut vm = machine(vec![8, 0, 0, 4]);
    assert_eq!(vm.run_once(), Ok(false));
    assert_eq!(vm.pc, 0);
}

#[test]
fn comparison_with_a_missing_register_faults() {
    let mut vm = machine(vec![9, 32, 0, 0]);
    assert_eq!(vm.run_once(), Err(ExecutionFault::RegisterOutOfRange));
    let mut vm = machine(vec![15, 0, 32, 0]);
    assert_eq!(vm.run_once(), Err(ExecutionFault::RegisterOutOfRange));
    let mut vm = machine(vec![15, 0, 31, 200]);
    assert_eq!(vm.run_once(), Ok(false));
    assert_eq!(vm.pc, 4);
}

#[test]
fn jeq_checks_its_register_and_its_target() {
    let mut vm = machine(vec![11, 32, 0, 0]);
    assert_eq!(vm.run_once(), Err(ExecutionFault::RegisterOutOfRange));
    assert_eq!(vm.pc, 0);

    let mut vm = machine(vec![11, 3, 0, 0]);
    vm.registers[3] = -1;
    assert_eq!(vm.run_once(), Ok(false));
    assert_eq!(vm.pc, 4);

    let mut vm = machine(vec![11, 3, 0, 0]);
    vm.registers[3] = -1;
    vm.comparison_result = true;
    assert_eq!(vm.run_once(), Err(ExecutionFault::NegativeJump));
    assert_eq!(vm.pc, 0);

    let mut vm = machine(vec![11, 3, 0, 0]);
    vm.registers[3] = 5;
    vm.comparison_result = true;
    assert_eq!(vm.run_once(), Err(ExecutionFault::JumpOutOfRange));
    assert_eq!(vm.pc, 0);

    let mut vm = machine(vec![11, 3, 0, 0]);
    vm.registers[3] = 4;
    vm.comparison_result = true;
    assert_eq!(vm.run_once(), Ok(false));
    assert_eq!(vm.pc, 4);
    assert_eq!(vm.run_once(), Ok(true));
}

#[test]
fn run_stops_at_the_first_fault_and_keeps_what_was_done() {
    let mut vm = machine(vec![1, 0, 0, 9, 1, 1, 0, 0, 5, 0, 1, 2, 1, 3, 0, 1]);
    assert_eq!(vm.run(), Err(ExecutionFault::DivisionByZero));
    assert_eq!(vm.registers[0], 9);
    assert_eq!(vm.registers[3], 0);
    assert_eq!(vm.pc, 8);
}

#[test]
fn run_follows_a_loop_until_it_ends() {
    // r0 = 0, r1 = 1, r2 = 5; add r1 to r0 until r0 == r2.
    let mut vm = machine(vec![
        1, 0, 0, 0, // 0: load r0 0
        1, 1, 0, 1, // 4: load r1 1
        1, 2, 0, 5, // 8: load r2 5
        1, 3, 0, 28, // 12: load r3 28
        2, 0, 1, 0, // 16: r0 = r0 + r1
        9, 0, 2, 0, // 20: r0 == r2 ?
        11, 3, 0, 0, // 24: if so, go to 32
        6, 0, 0, 16, // 28: go to 16
        0, 0, 0, 0, // 32: halt
    ]);
    // The target of JEQ is 32, which register 3 must hold.
    vm.program[15] = 32;
    assert_eq!(vm.run(), Ok(()));
    assert_eq!(vm.registers[0], 5);
    assert_eq!(vm.pc, 33);
    assert_eq!(vm.comparison_result, true);
}

#[test]
fn run_for_gives_up_when_the_cycles_run_out() {
    let mut vm = machine(vec![6, 0, 0, 0]);
    assert_eq!(vm.run_for(1000), Ok(false));
    assert_eq!(vm.pc, 0);

    let mut vm = machine(vec![1, 0, 0, 1, 1, 1, 0, 2, 0]);
    assert_eq!(vm.run_for(0), Ok(false));
    assert_eq!(vm.pc, 0);
    assert_eq!(vm.run_for(1), Ok(false));
    assert_eq!(vm.pc, 4);
    assert_eq!(vm.registers[0], 1);
    assert_eq!(vm.registers[1], 0);
    assert_eq!(vm.run_for(1), Ok(false));
    assert_eq!(vm.pc, 8);
    assert_eq!(vm.run_for(1), Ok(true));
    assert_eq!(vm.pc, 9);
}

#[test]
fn run_for_ends_like_run() {
    let mut vm = machine(vec![1, 0, 0, 1, 1, 1, 0, 2, 0]);
    assert_eq!(vm.run_for(3), Ok(true));
    assert_eq!(vm.pc, 9);
    assert_eq!(vm.registers[1], 2);

    let mut vm = machine(vec![1, 0, 0, 1, 5, 0, 1, 2]);
    assert_eq!(vm.run_for(usize::MAX), Err(ExecutionFault::DivisionByZero));
    assert_eq!(vm.pc, 4);
    assert_eq!(vm.registers[0], 1);

    let mut vm = machine(vec![1, 0, 0, 1]);
    assert_eq!(vm.run_for(2), Ok(true));
    assert_eq!(vm.pc, 4);
}
