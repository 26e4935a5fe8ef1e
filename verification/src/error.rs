//! The two ways in which running a program can fail.

use crate::text::{decimal, push_decimal};
use vstd::prelude::*;
use vstd::string::StringExecFns;

verus! {

/// Why a program could not be run to its end.
#[derive(Clone, Copy, Debug, PartialEq, Eq, Structural)]
pub enum ErrorKind {
    /// The source holds a bracket without a counterpart. The number is the
    /// position of the first such bracket among the instruction characters of
    /// the source, counted from zero.
    UnmatchedBracket(usize),
    /// A cell that was to be written holds a number that is no character.
    /// The number is that of the cell.
    InvalidCodepoint(u32),
}

impl ErrorKind {
    /// The text of the message for this error.
    pub open spec fn spec_message(self) -> Seq<char> {
        match self {
            ErrorKind::UnmatchedBracket(position) => "Unmatched bracket at or near index "@
                + decimal(position as nat),
            ErrorKind::InvalidCodepoint(value) => "Couldn't convert u32 "@ + decimal(value as nat)
                + " to a char."@,
        }
    }

    /// Describes the error in words, with its position or number in decimal.
    pub fn message(&self) -> (text: String)
        ensures
            text@ == self.spec_message(),
    {
        match *self {
            ErrorKind::UnmatchedBracket(position) => {
                let mut text = String::from_str("Unmatched bracket at or near index ");
                push_decimal(&mut text, position as u64);
                text
            },
            ErrorKind::InvalidCodepoint(value) => {
                let mut text = String::from_str("Couldn't convert u32 ");
                push_decimal(&mut text, value as u64);
                text.append(" to a char.");
                text
            },
        }
    }
}

} // verus!
