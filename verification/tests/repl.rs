use kural::repl::{Action, HexError, REPL};
use kural::vm::ExecutionFault;

#[test]
fn new_shell_is_blank() {
    let repl = REPL::new();
    assert_eq!(repl.command_buffer, Vec::<String>::new());
    assert_eq!(repl.vm.pc, 0);
    assert_eq!(repl.vm.program, Vec::<u8>::new());
    assert_eq!(repl.vm.registers, [0; 32]);
}

#[test]
fn parse_hex_reads_bytes_between_single_spaces() {
    let repl = REPL::new();
    assert_eq!(repl.parse_hex("01 00 01 F4"), Ok(vec![1, 0, 1, 244]));
    assert_eq!(repl.parse_hex("ff"), Ok(vec![255]));
    assert_eq!(repl.parse_hex("0 a B"), Ok(vec![0, 10, 11]));
    assert_eq!(repl.parse_hex("+1f 000ff"), Ok(vec![31, 255]));
}

#[test]
fn parse_hex_reports_the_first_piece_that_is_no_byte() {
    let repl = REPL::new();
    assert_eq!(repl.parse_hex(""), Err(HexError::Empty));
    assert_eq!(repl.parse_hex("01  02"), Err(HexError::Empty));
    assert_eq!(repl.parse_hex("01 "), Err(HexError::Empty));
    assert_eq!(repl.parse_hex(" 01"), Err(HexError::Empty));
    assert_eq!(repl.parse_hex("0g"), Err(HexError::InvalidDigit));
    assert_eq!(repl.parse_hex("+"), Err(HexError::InvalidDigit));
    assert_eq!(repl.parse_hex("-"), Err(HexError::InvalidDigit));
    assert_eq!(repl.parse_hex("-1"), Err(HexError::InvalidDigit));
    assert_eq!(repl.parse_hex("++1"), Err(HexError::InvalidDigit));
    assert_eq!(repl.parse_hex("0x10"), Err(HexError::InvalidDigit));
    assert_eq!(repl.parse_hex("1\t2"), Err(HexError::InvalidDigit));
    assert_eq!(repl.parse_hex("é"), Err(HexError::InvalidDigit));
    assert_eq!(repl.parse_hex("100"), Err(HexError::Overflow));
    assert_eq!(repl.parse_hex("10g"), Err(HexError::InvalidDigit));
    assert_eq!(repl.parse_hex("100g"), Err(HexError::Overflow));
    assert_eq!(repl.parse_hex("01 100 zz"), Err(HexError::Overflow));
    assert_eq!(repl.parse_hex("01 zz 100"), Err(HexError::InvalidDigit));
}

#[test]
fn parse_hex_agrees_with_the_standard_library() {
    let repl = REPL::new();
    let pieces = [
        "", "0", "7f", "80", "ff", "FF", "fF", "100", "0ff", "00000001", "+", "-", "+0", "+ff",
        "+100", "-0", "g", "1g", "fg", "ffg", "fffg", "0x1", "_1", "1_", "é", "１",
    ];
    for piece in pieces {
        let expected = u8::from_str_radix(piece, 16).ok();
        assert_eq!(repl.parse_hex(piece).ok(), expected.map(|byte| vec![byte]));
    }
}

#[test]
fn commands_leave_the_machine_alone() {
    let mut repl = REPL::new();
    assert_eq!(repl.dispatch(".history"), Action::History);
    assert_eq!(repl.dispatch(".registers"), Action::Registers);
    assert_eq!(repl.dispatch(".quit"), Action::Quit);
    assert_eq!(repl.command_buffer, vec![".history", ".registers", ".quit"]);
    assert_eq!(repl.vm.program, Vec::<u8>::new());
    assert_eq!(repl.vm.pc, 0);
}

#[test]
fn hex_lines_are_loaded_and_stepped() {
    let mut repl = REPL::new();
    assert_eq!(repl.dispatch("01 00 01 F4"), Action::Executed(Ok(false)));
    assert_eq!(repl.vm.registers[0], 500);
    assert_eq!(repl.vm.pc, 4);
    assert_eq!(repl.dispatch("00"), Action::Executed(Ok(true)));
    assert_eq!(repl.vm.pc, 5);
    assert_eq!(repl.vm.program, vec![1, 0, 1, 244, 0]);
    assert_eq!(repl.command_buffer, vec!["01 00 01 F4", "00"]);
}

#[test]
fn lines_that_are_no_hex_change_nothing_but_the_history() {
    let mut repl = REPL::new();
    assert_eq!(repl.dispatch(".help"), Action::InvalidHex(HexError::InvalidDigit));
    assert_eq!(repl.dispatch(""), Action::InvalidHex(HexError::Empty));
    assert_eq!(repl.dispatch("quit"), Action::InvalidHex(HexError::InvalidDigit));
    assert_eq!(repl.dispatch(".quit "), Action::InvalidHex(HexError::InvalidDigit));
    assert_eq!(repl.vm.program, Vec::<u8>::new());
    assert_eq!(repl.command_buffer, vec![".help", "", "quit", ".quit "]);
}

#[test]
fn faults_are_reported_and_the_bytes_stay() {
    let mut repl = REPL::new();
    assert_eq!(
        repl.dispatch("01 00"),
        Action::Executed(Err(ExecutionFault::TruncatedInstruction))
    );
    assert_eq!(repl.vm.program, vec![1, 0]);
    assert_eq!(repl.vm.pc, 0);
    assert_eq!(repl.dispatch("01 F4"), Action::Executed(Ok(false)));
    assert_eq!(repl.vm.registers[0], 500);
}
