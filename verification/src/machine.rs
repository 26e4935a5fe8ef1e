//! The machine that runs a resolved program: a circular tape of byte cells,
//! two pointers, a cursor over the input and the output written so far.

use crate::error::ErrorKind;
use crate::instruction::{well_formed, Instruction};
use crate::text::is_scalar_value;
use vstd::prelude::*;
use vstd::std_specs::iter::IteratorSpec;

verus! {

/// The number of cells of the tape.
pub const TAPE_LENGTH: usize = 30_000;

/// The state of the machine between two instructions, as a mathematical
/// value.
pub struct State {
    /// The cells of the tape.
    pub tape: Seq<u8>,
    /// The position of the current cell.
    pub tape_pointer: nat,
    /// The position of the instruction that runs next.
    pub instruction_pointer: nat,
    /// The whole input.
    pub input: Seq<char>,
    /// How many characters of the input have been read.
    pub input_position: nat,
    /// The characters written so far.
    pub output: Seq<char>,
}

impl State {
    /// The tape has its fixed length, the tape pointer is on the tape and the
    /// input cursor is not behind the end of the input.
    pub open spec fn valid(self) -> bool {
        &&& self.tape.len() == TAPE_LENGTH
        &&& self.tape_pointer < TAPE_LENGTH
        &&& self.input_position <= self.input.len()
    }

    /// The cell under the tape pointer.
    pub open spec fn cell(self) -> u8 {
        self.tape[self.tape_pointer as int]
    }
}

/// The state in which every run begins: all cells zero, both pointers at
/// zero, nothing read and nothing written.
pub open spec fn initial_state(input: Seq<char>) -> State {
    State {
        tape: Seq::new(TAPE_LENGTH as nat, |i: int| 0u8),
        tape_pointer: 0,
        instruction_pointer: 0,
        input,
        input_position: 0,
        output: Seq::empty(),
    }
}

/// One cell to the right on the circular tape.
pub open spec fn move_right(pointer: nat) -> nat {
    (pointer + 1) % (TAPE_LENGTH as nat)
}

/// One cell to the left on the circular tape.
pub open spec fn move_left(pointer: nat) -> nat {
    ((pointer + TAPE_LENGTH - 1) % (TAPE_LENGTH as int)) as nat
}

/// A cell plus one, modulo 256.
pub open spec fn incremented(cell: u8) -> u8 {
    ((cell + 1) % 256) as u8
}

/// A cell minus one, modulo 256.
pub open spec fn decremented(cell: u8) -> u8 {
    ((cell + 255) % 256) as u8
}

/// The cell value that reading a character gives: the low eight bits of the
/// character's number.
pub open spec fn cell_of(character: char) -> u8 {
    ((character as int) % 256) as u8
}

/// The cell value that the next read gives: that of the next character of
/// the input, or zero where the input is used up.
pub open spec fn next_input(state: State) -> u8 {
    if state.input_position < state.input.len() {
        cell_of(state.input[state.input_position as int])
    } else {
        0
    }
}

/// The machine has run off the end of the program.
pub open spec fn halted(program: Seq<Instruction>, state: State) -> bool {
    state.instruction_pointer >= program.len()
}

/// The state after the instruction under the instruction pointer has run.
pub open spec fn step(program: Seq<Instruction>, state: State) -> State
    recommends
        !halted(program, state),
{
    let next = state.instruction_pointer + 1;
    match program[state.instruction_pointer as int] {
        Instruction::MoveTapeRight => State {
            tape_pointer: move_right(state.tape_pointer),
            instruction_pointer: next,
            ..state
        },
        Instruction::MoveTapeLeft => State {
            tape_pointer: move_left(state.tape_pointer),
            instruction_pointer: next,
            ..state
        },
        Instruction::Increment => State {
            tape: state.tape.update(state.tape_pointer as int, incremented(state.cell())),
            instruction_pointer: next,
            ..state
        },
        Instruction::Decrement => State {
            tape: state.tape.update(state.tape_pointer as int, decremented(state.cell())),
            instruction_pointer: next,
            ..state
        },
        Instruction::ReadInput => State {
            tape: state.tape.update(state.tape_pointer as int, next_input(state)),
            input_position: if state.input_position < state.input.len() {
                state.input_position + 1
            } else {
                state.input_position
            },
            instruction_pointer: next,
            ..state
        },
        Instruction::WriteOutput => State {
            output: state.output.push(state.cell() as char),
            instruction_pointer: next,
            ..state
        },
        Instruction::LoopOpen(target) => State {
            instruction_pointer: if state.cell() == 0 {
                (target + 1) as nat
            } else {
                next
            },
            ..state
        },
        Instruction::LoopClose(target) => State {
            instruction_pointer: if state.cell() != 0 {
                (target + 1) as nat
            } else {
                next
            },
            ..state
        },
    }
}

/// The tape is circular: a move to the left from the first cell lands on the
/// last cell, a move to the right from the last cell lands on the first, and
/// every other move changes the pointer by one.
pub proof fn lemma_tape_is_circular(program: Seq<Instruction>, state: State)
    requires
        state.valid(),
        !halted(program, state),
    ensures
        program[state.instruction_pointer as int] == Instruction::MoveTapeLeft ==> step(
            program,
            state,
        ).tape_pointer == if state.tape_pointer == 0 {
            TAPE_LENGTH - 1
        } else {
            state.tape_pointer - 1
        },
        program[state.instruction_pointer as int] == Instruction::MoveTapeRight ==> step(
            program,
            state,
        ).tape_pointer == if state.tape_pointer == TAPE_LENGTH - 1 {
            0
        } else {
            state.tape_pointer + 1
        },
{
}

/// Moving right and then left, or left and then right, leads back to the
/// same cell.
pub proof fn lemma_moves_cancel(pointer: nat)
    requires
        pointer < TAPE_LENGTH,
    ensures
        move_left(move_right(pointer)) == pointer,
        move_right(move_left(pointer)) == pointer,
        move_left(pointer) < TAPE_LENGTH,
        move_right(pointer) < TAPE_LENGTH,
{
}

/// Cells count modulo 256: one more than 255 is 0, one less than 0 is 255,
/// and every other cell changes by one.
pub proof fn lemma_cells_wrap(program: Seq<Instruction>, state: State)
    requires
        state.valid(),
        !halted(program, state),
    ensures
        program[state.instruction_pointer as int] == Instruction::Increment ==> step(
            program,
            state,
        ).cell() == if state.cell() == 255 {
            0
        } else {
            state.cell() + 1
        },
        program[state.instruction_pointer as int] == Instruction::Decrement ==> step(
            program,
            state,
        ).cell() == if state.cell() == 0 {
            255
        } else {
            state.cell() - 1
        },
{
}

/// Reading where the input is used up is no error: it puts zero into the
/// current cell, leaves the input cursor where it is and goes on with the
/// next instruction.
pub proof fn lemma_read_past_end(program: Seq<Instruction>, state: State)
    requires
        state.valid(),
        !halted(program, state),
        program[state.instruction_pointer as int] == Instruction::ReadInput,
        state.input_position == state.input.len(),
    ensures
        step(program, state).cell() == 0,
        step(program, state).input_position == state.input_position,
        step(program, state).instruction_pointer == state.instruction_pointer + 1,
{
}

/// Validity is an invariant of the machine: a step leaves a valid state
/// valid.
pub proof fn lemma_step_keeps_valid(program: Seq<Instruction>, state: State)
    requires
        state.valid(),
        !halted(program, state),
    ensures
        step(program, state).valid(),
{
}

/// Turns a number into the character with that number, or fails where the
/// number is no Unicode scalar value.
pub fn character_of(value: u32) -> (converted: Result<char, ErrorKind>)
    ensures
        is_scalar_value(value) ==> converted == Ok::<char, ErrorKind>(value as char),
        !is_scalar_value(value) ==> converted == Err::<char, ErrorKind>(
            ErrorKind::InvalidCodepoint(value),
        ),
{
    match char::from_u32(value) {
        Some(character) => Ok(character),
        None => Err(ErrorKind::InvalidCodepoint(value)),
    }
}

/// The low eight bits of a character's number.
pub fn low_byte(character: char) -> (cell: u8)
    ensures
        cell == cell_of(character),
{
    let cell: u8 = #[verifier::truncate]
    (character as u8);
    proof {
        let number: u32 = character as u32;
        assert(number as u8 == number % 256) by (bit_vector);
    }
    cell
}

/// The machine as it runs.
pub struct Machine {
    /// The cells of the tape.
    pub tape: Vec<u8>,
    /// The position of the current cell.
    pub tape_pointer: usize,
    /// The position of the instruction that runs next.
    pub instruction_pointer: usize,
    /// The characters of the input.
    pub input: Vec<char>,
    /// How many characters of the input have been read.
    pub input_position: usize,
    /// The characters written so far.
    pub output: String,
}

impl View for Machine {
    type V = State;

    open spec fn view(&self) -> State {
        State {
            tape: self.tape@,
            tape_pointer: self.tape_pointer as nat,
            instruction_pointer: self.instruction_pointer as nat,
            input: self.input@,
            input_position: self.input_position as nat,
            output: self.output@,
        }
    }
}

impl Machine {
    /// The invariant of the machine: its state is valid.
    pub open spec fn wf(&self) -> bool {
        self@.valid()
    }

    /// A machine at the start of a run on the given input.
    pub fn new(input: &str) -> (machine: Machine)
        ensures
            machine.wf(),
            machine@ == initial_state(input@),
    {
        broadcast use vstd::string::group_string_axioms;

        let mut characters: Vec<char> = Vec::new();
        for character in it: input.chars()
            invariant
                it.seq() == input@,
                characters@ == input@.take(it.index()),
        {
            characters.push(character);
        }
        let machine = Machine {
            tape: vec![0u8; TAPE_LENGTH],
            tape_pointer: 0,
            instruction_pointer: 0,
            input: characters,
            input_position: 0,
            output: String::new(),
        };
        proof {
            assert(input@.take(input@.len() as int) == input@);
            assert(machine.tape@ == initial_state(input@).tape);
        }
        machine
    }

    /// Whether the machine has run off the end of the program.
    pub fn is_halted(&self, program: &Vec<Instruction>) -> (answer: bool)
        ensures
            answer == halted(program@, self@),
    {
        self.instruction_pointer >= program.len()
    }

    /// Runs the instruction under the instruction pointer.
    ///
    /// No instruction of a program can fail: the one possible failure, a cell
    /// that is no character, is checked for and cannot happen with cells of
    /// eight bits.
    pub fn step(&mut self, program: &Vec<Instruction>) -> (outcome: Result<(), ErrorKind>)
        requires
            old(self).wf(),
            well_formed(program@),
            !halted(program@, old(self)@),
        ensures
            outcome is Ok,
            final(self).wf(),
            final(self)@ == step(program@, old(self)@),
    {
        let cell: u8 = self.tape[self.tape_pointer];
        let instruction = program[self.instruction_pointer];
        match instruction {
            Instruction::MoveTapeRight => {
                if self.tape_pointer + 1 == TAPE_LENGTH {
                    self.tape_pointer = 0;
                } else {
                    self.tape_pointer += 1;
                }
            },
            Instruction::MoveTapeLeft => {
                if self.tape_pointer == 0 {
                    self.tape_pointer = TAPE_LENGTH - 1;
                } else {
                    self.tape_pointer -= 1;
                }
            },
            Instruction::Increment => {
                self.tape.set(self.tape_pointer, cell.wrapping_add(1));
            },
            Instruction::Decrement => {
                self.tape.set(self.tape_pointer, cell.wrapping_sub(1));
            },
            Instruction::ReadInput => {
                let read: u8 = if self.input_position < self.input.len() {
                    let character = self.input[self.input_position];
                    self.input_position += 1;
                    low_byte(character)
                } else {
                    0
                };
                self.tape.set(self.tape_pointer, read);
            },
            Instruction::WriteOutput => {
                match character_of(cell as u32) {
                    Ok(character) => {
                        self.output.push(character);
                    },
                    Err(error) => {
                        return Err(error);
                    },
                }
            },
            Instruction::LoopOpen(target) => {
                if cell == 0 {
                    self.instruction_pointer = target;
                }
            },
            Instruction::LoopClose(target) => {
                if cell != 0 {
                    self.instruction_pointer = target;
                }
            },
        }
        assert(self.instruction_pointer < program.len());
        self.instruction_pointer += 1;
        Ok(())
    }
}

} // verus!
