//! An interpreter for a small language of eight instructions that work on a
//! circular tape of 30,000 byte cells.
//!
//! A source text is parsed into a resolved program, in which every bracket
//! knows the position of its counterpart, and the program is run against an
//! input string. What it writes is the result. Every function of the library
//! is verified with Verus against the mathematical model in its contract.

pub mod error;
pub mod executor;
pub mod instruction;
pub mod machine;
pub mod nesting;
pub mod parser;
pub mod text;

pub use crate::error::ErrorKind;
pub use crate::executor::{execute, execute_bounded};
pub use crate::instruction::Instruction;
pub use crate::machine::{Machine, TAPE_LENGTH};
pub use crate::parser::{find_matching_bracket, parse, tokenize};

use crate::executor::{
    final_state, halts, halts_within, lemma_final_state, lemma_straight_line_halts,
};
use crate::machine::initial_state;
use crate::parser::{
    has_no_bracket, is_comment, lemma_parse_comment, lemma_parse_without_brackets, resolve,
    spec_parse, tokens_of,
};
use vstd::prelude::*;

verus! {

/// What running a source text on an input gives, where the run halts: what
/// the program wrote, or the error found in the source.
pub open spec fn spec_run(source: Seq<char>, input: Seq<char>) -> Result<Seq<char>, ErrorKind> {
    match spec_parse(source) {
        Ok(program) => Ok(final_state(program, initial_state(input)).output),
        Err(error) => Err(error),
    }
}

/// The run of a source text on an input comes to an end: the source does not
/// parse, or its program halts on the input.
pub open spec fn run_halts(source: Seq<char>, input: Seq<char>) -> bool {
    spec_parse(source) matches Ok(program) ==> halts(program, initial_state(input))
}

/// The run of a source text on an input comes to an end within `steps`
/// instructions.
pub open spec fn run_halts_within(source: Seq<char>, input: Seq<char>, steps: nat) -> bool {
    spec_parse(source) matches Ok(program) ==> halts_within(program, initial_state(input), steps)
}

/// The run of a source text without brackets comes to an end on every input,
/// after one step for each of its instructions.
pub proof fn lemma_run_without_loops_halts(source: Seq<char>, input: Seq<char>)
    requires
        has_no_bracket(source),
    ensures
        run_halts(source, input),
        run_halts_within(source, input, tokens_of(source).len()),
{
    lemma_parse_without_brackets(source);
    lemma_straight_line_halts(resolve(tokens_of(source)), initial_state(input));
}

/// The run of a source text that is a comment as a whole comes to an end at
/// once and writes nothing, whatever the input.
pub proof fn lemma_run_of_comment(source: Seq<char>, input: Seq<char>)
    requires
        is_comment(source),
    ensures
        run_halts_within(source, input, 0),
        run_halts(source, input),
        spec_run(source, input) == Ok::<Seq<char>, ErrorKind>(Seq::empty()),
{
    lemma_parse_comment(source);
    lemma_final_state(Seq::<Instruction>::empty(), initial_state(input), 0);
}

/// Parses a source text and runs it on an input. Gives back what the program
/// wrote, or the message of the error in the source.
///
/// A program need not halt. This function is for the runs that do: it sets no
/// limit of its own and runs for as long as the program takes. `run_bounded`
/// takes any run and gives up after a given number of instructions.
pub fn run(source: &str, input: &str) -> (outcome: Result<String, String>)
    requires
        run_halts(source@, input@),
    ensures
        match outcome {
            Ok(output) => spec_run(source@, input@) == Ok::<Seq<char>, ErrorKind>(output@),
            Err(message) => spec_run(source@, input@) matches Err(error) && message@
                == error.spec_message(),
        },
{
    let program = match parse(source) {
        Ok(program) => program,
        Err(error) => {
            return Err(error.message());
        },
    };
    match execute(&program, input) {
        Ok(output) => Ok(output),
        Err(error) => Err(error.message()),
    }
}

/// Parses a source text and runs it on an input for at most `max_steps`
/// instructions. Gives back what the program wrote where it has halted by
/// then, `None` where it has not, or the message of the error in the source.
pub fn run_bounded(source: &str, input: &str, max_steps: u64) -> (outcome: Result<
    Option<String>,
    String,
>)
    ensures
        match outcome {
            Ok(Some(output)) => run_halts_within(source@, input@, max_steps as nat) && spec_run(
                source@,
                input@,
            ) == Ok::<Seq<char>, ErrorKind>(output@),
            Ok(None) => spec_parse(source@) is Ok && !run_halts_within(
                source@,
                input@,
                max_steps as nat,
            ),
            Err(message) => spec_run(source@, input@) matches Err(error) && message@
                == error.spec_message(),
        },
{
    let program = match parse(source) {
        Ok(program) => program,
        Err(error) => {
            return Err(error.message());
        },
    };
    match execute_bounded(&program, input, max_steps) {
        Ok(finished) => Ok(finished),
        Err(error) => Err(error.message()),
    }
}

} // verus!
