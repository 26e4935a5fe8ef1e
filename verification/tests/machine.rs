use sabita_no_lib::machine::{character_of, low_byte};
use sabita_no_lib::{execute, execute_bounded, ErrorKind, Instruction, Machine, TAPE_LENGTH};

fn machine_on(program: &Vec<Instruction>, input: &str, steps: usize) -> Machine {
    let mut machine = Machine::new(input);
    for _ in 0..steps {
        assert!(!machine.is_halted(program));
        assert_eq!(machine.step(program), Ok(()));
    }
    machine
}

#[test]
fn the_tape_has_thirty_thousand_cells() {
    assert_eq!(TAPE_LENGTH, 30_000);
}

#[test]
fn a_new_machine_is_blank() {
    let machine = Machine::new("abc");
    assert_eq!(machine.tape, vec![0u8; 30_000]);
    assert_eq!(machine.tape_pointer, 0);
    assert_eq!(machine.instruction_pointer, 0);
    assert_eq!(machine.input, vec!['a', 'b', 'c']);
    assert_eq!(machine.input_position, 0);
    assert_eq!(machine.output, "");
}

#[test]
fn moving_left_from_index_zero_wraps_to_the_last_index() {
    let program = vec![Instruction::MoveTapeLeft, Instruction::MoveTapeLeft];
    let machine = machine_on(&program, "", 1);
    assert_eq!(machine.tape_pointer, 29_999);
    assert_eq!(machine.instruction_pointer, 1);
    let machine = machine_on(&program, "", 2);
    assert_eq!(machine.tape_pointer, 29_998);
}

#[test]
fn moving_right_from_the_last_index_wraps_to_index_zero() {
    let program = vec![
        Instruction::MoveTapeLeft,
        Instruction::MoveTapeRight,
        Instruction::MoveTapeRight,
    ];
    let machine = machine_on(&program, "", 2);
    assert_eq!(machine.tape_pointer, 0);
    let machine = machine_on(&program, "", 3);
    assert_eq!(machine.tape_pointer, 1);
    assert_eq!(machine.instruction_pointer, 3);
    assert!(machine.is_halted(&program));
}

#[test]
fn incrementing_a_cell_wraps_at_255() {
    let program = vec![Instruction::Increment; 256];
    let machine = machine_on(&program, "", 255);
    assert_eq!(machine.tape[0], 255);
    let machine = machine_on(&program, "", 256);
    assert_eq!(machine.tape[0], 0);
    assert_eq!(machine.tape[1..], vec![0u8; 29_999][..]);
}

#[test]
fn decrementing_a_cell_wraps_at_zero() {
    let program = vec![Instruction::Decrement, Instruction::Decrement];
    let machine = machine_on(&program, "", 1);
    assert_eq!(machine.tape[0], 255);
    let machine = machine_on(&program, "", 2);
    assert_eq!(machine.tape[0], 254);
}

#[test]
fn reading_takes_the_next_character_of_the_input() {
    let program = vec![
        Instruction::ReadInput,
        Instruction::MoveTapeRight,
        Instruction::ReadInput,
    ];
    let machine = machine_on(&program, "hi", 3);
    assert_eq!(machine.tape[0], b'h');
    assert_eq!(machine.tape[1], b'i');
    assert_eq!(machine.input_position, 2);
}

#[test]
fn reading_exhausted_input_stores_zero() {
    let program = vec![
        Instruction::Increment,
        Instruction::ReadInput,
        Instruction::ReadInput,
    ];
    let machine = machine_on(&program, "", 2);
    assert_eq!(machine.tape[0], 0);
    assert_eq!(machine.input_position, 0);
    assert_eq!(machine.instruction_pointer, 2);
    let machine = machine_on(&program, "z", 3);
    assert_eq!(machine.tape[0], 0);
    assert_eq!(machine.input_position, 1);
}

#[test]
fn writing_appends_the_cell_as_a_character() {
    let program = vec![
        Instruction::ReadInput,
        Instruction::WriteOutput,
        Instruction::Increment,
        Instruction::WriteOutput,
    ];
    let machine = machine_on(&program, "a", 4);
    assert_eq!(machine.output, "ab");
    assert_eq!(machine.tape[0], b'b');
}

#[test]
fn a_loop_open_jumps_behind_its_end_on_zero() {
    let program = vec![
        Instruction::LoopOpen(2),
        Instruction::Increment,
        Instruction::LoopClose(0),
        Instruction::WriteOutput,
    ];
    let machine = machine_on(&program, "", 1);
    assert_eq!(machine.instruction_pointer, 3);
    assert_eq!(machine.tape[0], 0);
}

#[test]
fn a_loop_open_falls_through_on_a_cell_that_is_not_zero() {
    let program = vec![
        Instruction::Increment,
        Instruction::LoopOpen(3),
        Instruction::Decrement,
        Instruction::LoopClose(1),
    ];
    let machine = machine_on(&program, "", 2);
    assert_eq!(machine.instruction_pointer, 2);
}

#[test]
fn a_loop_close_jumps_behind_its_start_while_the_cell_is_not_zero() {
    let program = vec![
        Instruction::Increment,
        Instruction::Increment,
        Instruction::LoopOpen(4),
        Instruction::Decrement,
        Instruction::LoopClose(2),
    ];
    // After the first time round the cell holds one: back into the body.
    let machine = machine_on(&program, "", 5);
    assert_eq!(machine.tape[0], 1);
    assert_eq!(machine.instruction_pointer, 3);
    // After the second time round it holds zero: on behind the loop.
    let machine = machine_on(&program, "", 7);
    assert_eq!(machine.tape[0], 0);
    assert_eq!(machine.instruction_pointer, 5);
    assert!(machine.is_halted(&program));
}

#[test]
fn a_machine_on_the_empty_program_has_halted() {
    let machine = Machine::new("input");
    assert!(machine.is_halted(&vec![]));
    assert!(!machine.is_halted(&vec![Instruction::Increment]));
}

#[test]
fn numbers_that_are_characters_are_converted() {
    assert_eq!(character_of(0), Ok('\0'));
    assert_eq!(character_of(65), Ok('A'));
    assert_eq!(character_of(255), Ok('\u{ff}'));
    assert_eq!(character_of(0xD7FF), Ok('\u{d7ff}'));
    assert_eq!(character_of(0xE000), Ok('\u{e000}'));
    assert_eq!(character_of(0x10FFFF), Ok('\u{10ffff}'));
}

#[test]
fn numbers_that_are_no_characters_are_invalid_codepoints() {
    assert_eq!(character_of(0xD800), Err(ErrorKind::InvalidCodepoint(0xD800)));
    assert_eq!(character_of(0xDFFF), Err(ErrorKind::InvalidCodepoint(0xDFFF)));
    assert_eq!(character_of(0x110000), Err(ErrorKind::InvalidCodepoint(0x110000)));
    assert_eq!(character_of(u32::MAX), Err(ErrorKind::InvalidCodepoint(u32::MAX)));
}

#[test]
fn the_low_byte_of_a_character_is_its_number_modulo_256() {
    assert_eq!(low_byte('\0'), 0);
    assert_eq!(low_byte('A'), 65);
    assert_eq!(low_byte('\u{ff}'), 255);
    assert_eq!(low_byte('\u{100}'), 0);
    assert_eq!(low_byte('\u{20ac}'), 0xAC);
    assert_eq!(low_byte('\u{10ffff}'), 0xFF);
}

#[test]
fn execute_runs_a_program_to_its_end() {
    let program = vec![
        Instruction::ReadInput,
        Instruction::LoopOpen(4),
        Instruction::WriteOutput,
        Instruction::ReadInput,
        Instruction::LoopClose(1),
    ];
    assert_eq!(execute(&program, "echo"), Ok(String::from("echo")));
    assert_eq!(execute(&program, ""), Ok(String::new()));
    assert_eq!(execute(&vec![], "ignored"), Ok(String::new()));
}

#[test]
fn execute_bounded_stops_after_the_given_number_of_instructions() {
    let forever = vec![
        Instruction::Increment,
        Instruction::LoopOpen(2),
        Instruction::LoopClose(1),
    ];
    assert_eq!(execute_bounded(&forever, "", 0), Ok(None));
    assert_eq!(execute_bounded(&forever, "", 12_345), Ok(None));
    let twice = vec![Instruction::WriteOutput, Instruction::WriteOutput];
    assert_eq!(execute_bounded(&twice, "", 1), Ok(None));
    assert_eq!(execute_bounded(&twice, "", 2), Ok(Some(String::from("\0\0"))));
    assert_eq!(execute_bounded(&twice, "", 3), Ok(Some(String::from("\0\0"))));
}
