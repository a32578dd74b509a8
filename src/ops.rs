//! The eight operations of the language, and the character that spells each.

use vstd::prelude::*;

verus! {

/// One operation of the language.
#[derive(Debug, PartialEq, Eq, Structural, Clone, Copy)]
pub enum Operation {
    /// `>`: moves the head one cell to the right.
    IncrementPointer,
    /// `<`: moves the head one cell to the left.
    DecrementPointer,
    /// `+`: adds one to the cell at the head.
    IncrementByte,
    /// `-`: subtracts one from the cell at the head.
    DecrementByte,
    /// `.`: writes the cell at the head out.
    OutputByte,
    /// `,`: reads one byte into the cell at the head.
    InputByte,
    /// `[`: opens a loop.
    StartLoop,
    /// `]`: closes a loop.
    EndLoop,
}

/// The operation that a character spells, if any; every other character is
/// a comment.
pub open spec fn op_of_char(c: char) -> Option<Operation> {
    if c == '>' {
        Some(Operation::IncrementPointer)
    } else if c == '<' {
        Some(Operation::DecrementPointer)
    } else if c == '+' {
        Some(Operation::IncrementByte)
    } else if c == '-' {
        Some(Operation::DecrementByte)
    } else if c == '.' {
        Some(Operation::OutputByte)
    } else if c == ',' {
        Some(Operation::InputByte)
    } else if c == '[' {
        Some(Operation::StartLoop)
    } else if c == ']' {
        Some(Operation::EndLoop)
    } else {
        None
    }
}

/// The line that describes an operation: its character, then what it does.
pub open spec fn description_of(op: Operation) -> Seq<char> {
    match op {
        Operation::IncrementPointer => "> : moves the data pointer to the right by one cell."@,
        Operation::DecrementPointer => "< : moves the data pointer to the left by one cell."@,
        Operation::IncrementByte => "+ : increases the value stored at the current cell by 1."@,
        Operation::DecrementByte => "- : decreases the value stored at the current cell by 1."@,
        Operation::OutputByte => ". : Outputs the byte at the current data pointer."@,
        Operation::InputByte => ", : Accepts a byte of input, and stores the value at the current data pointer."@,
        Operation::StartLoop => "[ : Starts a loop."@,
        Operation::EndLoop => "] : Ends a loop."@,
    }
}

impl Operation {
    /// The operation that `c` spells, or `None` when `c` is a comment.
    pub fn char_to_operation(c: char) -> (r: Option<Operation>)
        ensures
            r == op_of_char(c),
    {
        match c {
            '>' => Some(Operation::IncrementPointer),
            '<' => Some(Operation::DecrementPointer),
            '+' => Some(Operation::IncrementByte),
            '-' => Some(Operation::DecrementByte),
            '.' => Some(Operation::OutputByte),
            ',' => Some(Operation::InputByte),
            '[' => Some(Operation::StartLoop),
            ']' => Some(Operation::EndLoop),
            _ => None,
        }
    }

    /// The line that describes this operation: its character, then what it does.
    pub fn to_string(&self) -> (r: String)
        ensures
            r@ == description_of(*self),
    {
        match self {
            Operation::IncrementPointer => "> : moves the data pointer to the right by one cell.".to_owned(),
            Operation::DecrementPointer => "< : moves the data pointer to the left by one cell.".to_owned(),
            Operation::IncrementByte => "+ : increases the value stored at the current cell by 1.".to_owned(),
            Operation::DecrementByte => "- : decreases the value stored at the current cell by 1.".to_owned(),
            Operation::OutputByte => ". : Outputs the byte at the current data pointer.".to_owned(),
            Operation::InputByte => ", : Accepts a byte of input, and stores the value at the current data pointer.".to_owned(),
            Operation::StartLoop => "[ : Starts a loop.".to_owned(),
            Operation::EndLoop => "] : Ends a loop.".to_owned(),
        }
    }
}

} // verus!
