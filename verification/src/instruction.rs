//! The resolved instructions of a program and the invariant of a program as
//! a whole.

use vstd::prelude::*;

verus! {

/// One instruction of a resolved program. The position of an instruction in
/// its program is the value the instruction pointer has when it runs.
#[derive(Clone, Copy, Debug, PartialEq, Eq, Structural)]
pub enum Instruction {
    /// `>`: move the tape pointer one cell to the right.
    MoveTapeRight,
    /// `<`: move the tape pointer one cell to the left.
    MoveTapeLeft,
    /// `+`: add one to the current cell.
    Increment,
    /// `-`: subtract one from the current cell.
    Decrement,
    /// `,`: read one character of input into the current cell.
    ReadInput,
    /// `.`: write the current cell as one character of output.
    WriteOutput,
    /// `[`: holds the position of the `LoopClose` that ends the loop.
    LoopOpen(usize),
    /// `]`: holds the position of the `LoopOpen` that begins the loop.
    LoopClose(usize),
}

/// The loop at `open` ends at `close`: each of the two instructions holds the
/// position of the other.
pub open spec fn is_loop(program: Seq<Instruction>, open: int, close: int) -> bool {
    &&& 0 <= open < close < program.len()
    &&& program[open] == Instruction::LoopOpen(close as usize)
    &&& program[close] == Instruction::LoopClose(open as usize)
}

/// The invariant of a resolved program: every loop instruction points at its
/// counterpart, which points back, and two loops are either apart or one
/// inside the other.
pub open spec fn well_formed(program: Seq<Instruction>) -> bool {
    &&& forall|p: int|
        0 <= p < program.len() ==> match #[trigger] program[p] {
            Instruction::LoopOpen(target) => is_loop(program, p, target as int),
            Instruction::LoopClose(target) => is_loop(program, target as int, p),
            _ => true,
        }
    &&& forall|p: int, q: int|
        0 <= p < q < program.len() ==> match (#[trigger] program[p], #[trigger] program[q]) {
            (Instruction::LoopOpen(outer), Instruction::LoopOpen(inner)) => q < outer ==> inner
                < outer,
            _ => true,
        }
}

} // verus!
