//! Running a resolved program from its first instruction until the machine
//! runs off its end.

use crate::error::ErrorKind;
use crate::instruction::{well_formed, Instruction};
use crate::machine::{halted, initial_state, step, Machine, State};
use vstd::prelude::*;

verus! {

/// The state after at most `steps` instructions have run from `state`. A
/// machine that has halted stays as it is.
pub open spec fn run_from(program: Seq<Instruction>, state: State, steps: nat) -> State
    decreases steps,
{
    if steps == 0 || halted(program, state) {
        state
    } else {
        run_from(program, step(program, state), (steps - 1) as nat)
    }
}

/// From `state` the machine halts after at most `steps` instructions.
pub open spec fn halts_within(program: Seq<Instruction>, state: State, steps: nat) -> bool {
    halted(program, run_from(program, state, steps))
}

/// From `state` the machine halts at some time.
pub open spec fn halts(program: Seq<Instruction>, state: State) -> bool {
    exists|steps: nat| halts_within(program, state, steps)
}

/// A number of instructions after which the machine has halted, where it
/// halts at all.
pub open spec fn steps_to_halt(program: Seq<Instruction>, state: State) -> nat {
    choose|steps: nat| halts_within(program, state, steps)
}

/// The state in which the machine halts, where it halts at all.
pub open spec fn final_state(program: Seq<Instruction>, state: State) -> State {
    run_from(program, state, steps_to_halt(program, state))
}

/// Running in two stretches is running once for the sum of their lengths.
pub proof fn lemma_run_from_add(program: Seq<Instruction>, state: State, first: nat, second: nat)
    ensures
        run_from(program, state, first + second) == run_from(
            program,
            run_from(program, state, first),
            second,
        ),
    decreases first,
{
    if first == 0 {
    } else if halted(program, state) {
        assert(run_from(program, state, second) == state);
    } else {
        lemma_run_from_add(program, step(program, state), (first - 1) as nat, second);
    }
}

/// The state in which a machine halts does not depend on how long it is
/// given: any number of instructions after which it has halted leads to the
/// final state.
pub proof fn lemma_final_state(program: Seq<Instruction>, state: State, steps: nat)
    requires
        halts_within(program, state, steps),
    ensures
        halts(program, state),
        final_state(program, state) == run_from(program, state, steps),
        halted(program, final_state(program, state)),
{
    let chosen = steps_to_halt(program, state);
    assert(halts_within(program, state, chosen));
    if chosen <= steps {
        lemma_run_from_add(program, state, chosen, (steps - chosen) as nat);
    } else {
        lemma_run_from_add(program, state, steps, (chosen - steps) as nat);
    }
}

/// No instruction at or behind position `from` is a loop instruction.
pub open spec fn straight_line_from(program: Seq<Instruction>, from: int) -> bool {
    forall|i: int|
        from <= i < program.len() ==> !(#[trigger] program[i] is LoopOpen) && !(program[i]
            is LoopClose)
}

/// A machine with no loop instruction left in front of it halts, after as
/// many instructions as are left.
pub proof fn lemma_straight_line_halts(program: Seq<Instruction>, state: State)
    requires
        straight_line_from(program, state.instruction_pointer as int),
    ensures
        halts(program, state),
        state.instruction_pointer <= program.len() ==> halts_within(
            program,
            state,
            (program.len() - state.instruction_pointer) as nat,
        ),
    decreases program.len() - state.instruction_pointer,
{
    if halted(program, state) {
        assert(halts_within(program, state, 0));
    } else {
        let next = step(program, state);
        let left = (program.len() - state.instruction_pointer) as nat;
        assert(next.instruction_pointer == state.instruction_pointer + 1);
        lemma_straight_line_halts(program, next);
        assert(run_from(program, state, left) == run_from(program, next, (left - 1) as nat));
        assert(halts_within(program, state, left));
    }
}

/// Runs a program on an input until the machine halts, and gives back what it
/// wrote.
///
/// A program need not halt. This function is for the runs that do: it
/// follows the machine step by step for as long as the run takes and sets no
/// limit of its own. `execute_bounded` takes any run and gives up after a
/// given number of instructions.
pub fn execute(program: &Vec<Instruction>, input: &str) -> (outcome: Result<String, ErrorKind>)
    requires
        well_formed(program@),
        halts(program@, initial_state(input@)),
    ensures
        outcome matches Ok(output) && output@ == final_state(
            program@,
            initial_state(input@),
        ).output,
{
    let mut machine = Machine::new(input);
    let ghost end = final_state(program@, machine@);
    let ghost mut left: nat = steps_to_halt(program@, machine@);
    proof {
        lemma_final_state(program@, machine@, left);
    }
    while !machine.is_halted(program)
        invariant
            machine.wf(),
            well_formed(program@),
            run_from(program@, machine@, left) == end,
            halted(program@, end),
        decreases left,
    {
        match machine.step(program) {
            Ok(()) => {},
            Err(error) => {
                return Err(error);
            },
        }
        proof {
            left = (left - 1) as nat;
        }
    }
    Ok(machine.output)
}

/// Runs a program on an input for at most `max_steps` instructions. Gives
/// back what the machine wrote where it has halted by then, and `None` where
/// it has not.
pub fn execute_bounded(program: &Vec<Instruction>, input: &str, max_steps: u64) -> (outcome:
    Result<Option<String>, ErrorKind>)
    requires
        well_formed(program@),
    ensures
        outcome matches Ok(finished) && match finished {
            Some(output) => halts_within(program@, initial_state(input@), max_steps as nat)
                && output@ == final_state(program@, initial_state(input@)).output,
            None => !halts_within(program@, initial_state(input@), max_steps as nat),
        },
{
    let mut machine = Machine::new(input);
    let mut left: u64 = max_steps;
    let ghost end = run_from(program@, machine@, max_steps as nat);
    while left > 0 && !machine.is_halted(program)
        invariant
            machine.wf(),
            well_formed(program@),
            run_from(program@, machine@, left as nat) == end,
        decreases left,
    {
        match machine.step(program) {
            Ok(()) => {},
            Err(error) => {
                return Err(error);
            },
        }
        left -= 1;
    }
    if machine.is_halted(program) {
        proof {
            lemma_final_state(program@, initial_state(input@), max_steps as nat);
        }
        Ok(Some(machine.output))
    } else {
        Ok(None)
    }
}

} // verus!
