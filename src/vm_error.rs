//! The errors of loading a program and of running it.

use vstd::prelude::*;

use crate::ops::Operation;

verus! {

/// What can go wrong while a program is loaded or run.
#[derive(Debug)]
pub enum VirtualMachineError {
    /// The head was moved off the tape, and the tape may not grow.
    InvalidHeadPosition {
        /// Line of the instruction that moved the head.
        line: usize,
        /// Column of the instruction that moved the head.
        column: usize,
        /// The instruction that moved the head.
        operation: Operation,
        /// Name of the program.
        filename: String,
        /// Where the head was sent.
        position: usize,
        /// Length of the tape at that moment.
        tape_length: usize,
    },
    /// A bracket of the program has no partner: `'['` for an open bracket
    /// still open at the end, `']'` for a close bracket with nothing to close.
    UnmatchedBracket {
        /// The bracket without a partner.
        bracket: char,
        /// Its line.
        line: usize,
        /// Its column.
        column: usize,
    },
    /// A loop start has no recorded partner; a loaded program never has one.
    BracketFailure,
}

} // verus!
