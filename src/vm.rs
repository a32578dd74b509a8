//! The tape machine: a tape of cells, a head on it, and a position in a
//! loaded program.
//!
//! Each handler below carries out one operation and returns the position of
//! the next instruction; [`VirtualMachine::step`] fetches the instruction at
//! the current position, runs its handler and moves on. Input and output are
//! left to the caller: a step hands out the bytes it writes in a buffer, and
//! stops at an input instruction until the caller supplies a byte.

use vstd::prelude::*;

use crate::cellkind::CellKind;
use crate::ops::Operation;
use crate::program::{operations, BfProgram, InstructionInfo};
use crate::vm_error::VirtualMachineError;

verus! {

broadcast use vstd::std_specs::hash::group_hash_axioms;

/// The tape length used when none is given.
pub const DEFAULT_TAPE_LENGTH: usize = 30000;

/// The tape length that a machine asked for `tape_length` cells gets.
pub open spec fn tape_length_for(tape_length: usize) -> nat {
    if tape_length == 0 {
        DEFAULT_TAPE_LENGTH as nat
    } else {
        tape_length as nat
    }
}

/// Where a run stands after one step.
#[derive(Debug, PartialEq, Eq, Structural, Clone, Copy)]
pub enum Status {
    /// An instruction was carried out; there may be more.
    Running,
    /// The current instruction reads a byte, and none was supplied.
    AwaitingInput,
    /// The position is past the last instruction: the run is over.
    Halted,
}

/// A machine running a program on a tape of cells of type `T`.
pub struct VirtualMachine<'a, T> {
    /// The program, shared and never changed.
    pub program: &'a BfProgram,
    /// The cells.
    pub tape: Vec<T>,
    /// The index of the cell under the head.
    pub tape_head: usize,
    /// The index of the instruction to run next.
    pub program_position: usize,
    /// Whether the tape grows when the head runs off its end.
    pub growable: bool,
}

impl<'a, T: CellKind + Copy> VirtualMachine<'a, T> {
    /// The instructions of the program.
    pub open spec fn instructions(&self) -> Seq<InstructionInfo> {
        self.program.spec_instructions()
    }

    /// The instruction at the current position.
    pub open spec fn current(&self) -> InstructionInfo {
        self.instructions()[self.program_position as int]
    }

    /// The value of a fresh cell.
    pub open spec fn zero() -> T {
        T::spec_from_u8(0)
    }

    /// The program is loaded, the head is on the tape, and the position is on
    /// an instruction or just past the last one.
    pub open spec fn wf(&self) -> bool {
        &&& self.program.wf()
        &&& self.tape_head < self.tape@.len()
        &&& self.program_position <= self.instructions().len()
    }

    /// `e` reports that the current instruction sent the head to `position`,
    /// off this tape.
    pub open spec fn is_head_error(&self, e: VirtualMachineError, position: usize) -> bool {
        match e {
            VirtualMachineError::InvalidHeadPosition {
                line,
                column,
                operation,
                filename,
                position: p,
                tape_length,
            } => {
                &&& line == self.current().spec_line()
                &&& column == self.current().spec_column()
                &&& operation == self.current().spec_operation()
                &&& filename@ == self.program.spec_filename()
                &&& p == position
                &&& tape_length == self.tape@.len()
            },
            _ => false,
        }
    }

    /// A machine for `program` with `tape_length` zero cells (the default
    /// length where `tape_length` is 0), the head on the first cell and the
    /// position on the first instruction.
    pub fn new(program: &'a BfProgram, tape_length: usize, growable: bool) -> (r: Self)
        ensures
            r.program == program,
            r.tape@ == Seq::new(tape_length_for(tape_length), |i: int| Self::zero()),
            r.tape_head == 0,
            r.program_position == 0,
            r.growable == growable,
    {
        let length = if tape_length == 0 {
            DEFAULT_TAPE_LENGTH
        } else {
            tape_length
        };
        let mut tape: Vec<T> = Vec::new();
        let mut i: usize = 0;
        while i < length
            invariant
                i <= length,
                tape@ == Seq::new(i as nat, |k: int| Self::zero()),
            decreases length - i,
        {
            tape.push(T::from_u8(0));
            i += 1;
            assert(tape@ =~= Seq::new(i as nat, |k: int| Self::zero()));
        }
        VirtualMachine { program, tape, tape_head: 0, program_position: 0, growable }
    }

    /// The error for the current instruction having sent the head off the
    /// tape.
    fn head_error(&self) -> (e: VirtualMachineError)
        requires
            self.program_position < self.instructions().len(),
        ensures
            self.is_head_error(e, self.tape_head),
    {
        let x = self.program.instructions()[self.program_position];
        VirtualMachineError::InvalidHeadPosition {
            line: x.line(),
            column: x.column(),
            operation: x.operation(),
            filename: self.program.filename().to_owned(),
            position: self.tape_head,
            tape_length: self.tape.len(),
        }
    }

    /// Checks that the head is on the tape. Where it is just past the end, a
    /// growable tape gets one more zero cell, and any other tape fails with
    /// an invalid head position. Returns the current position.
    pub fn check_head_location(&mut self) -> (r: Result<usize, VirtualMachineError>)
        requires
            old(self).tape_head <= old(self).tape@.len(),
            old(self).tape_head == old(self).tape@.len() && !old(self).growable
                ==> old(self).program_position < old(self).instructions().len(),
        ensures
            final(self).program == old(self).program,
            final(self).tape_head == old(self).tape_head,
            final(self).program_position == old(self).program_position,
            final(self).growable == old(self).growable,
            old(self).tape_head < old(self).tape@.len() ==> {
                &&& r == Ok::<usize, VirtualMachineError>(old(self).program_position)
                &&& final(self).tape@ == old(self).tape@
            },
            old(self).tape_head == old(self).tape@.len() && old(self).growable ==> {
                &&& r == Ok::<usize, VirtualMachineError>(old(self).program_position)
                &&& final(self).tape@ == old(self).tape@.push(Self::zero())
            },
            old(self).tape_head == old(self).tape@.len() && !old(self).growable ==> {
                &&& r is Err
                &&& old(self).is_head_error(r->Err_0, old(self).tape_head)
                &&& final(self).tape@ == old(self).tape@
            },
    {
        if self.tape_head >= self.tape.len() {
            if self.growable {
                self.tape.push(T::from_u8(0));
            } else {
                return Err(self.head_error());
            }
        }
        Ok(self.program_position)
    }

    /// Adds one, wrapping, to the cell under the head.
    pub fn increment_cell_at_head(&mut self) -> (r: Result<usize, VirtualMachineError>)
        requires
            old(self).tape_head < old(self).tape@.len(),
            old(self).program_position < old(self).instructions().len(),
        ensures
            final(self).tape@ == old(self).tape@.update(
                old(self).tape_head as int,
                old(self).tape@[old(self).tape_head as int].spec_increment(),
            ),
            r == Ok::<usize, VirtualMachineError>((old(self).program_position + 1) as usize),
            final(self).program == old(self).program,
            final(self).tape_head == old(self).tape_head,
            final(self).program_position == old(self).program_position,
            final(self).growable == old(self).growable,
    {
        proof {
            self.program.lemma_instructions_fit();
        }
        let h = self.tape_head;
        let v = self.tape[h].increment();
        self.tape.set(h, v);
        Ok(self.program_position + 1)
    }

    /// Subtracts one, wrapping, from the cell under the head.
    pub fn decrement_cell_at_head(&mut self) -> (r: Result<usize, VirtualMachineError>)
        requires
            old(self).tape_head < old(self).tape@.len(),
            old(self).program_position < old(self).instructions().len(),
        ensures
            final(self).tape@ == old(self).tape@.update(
                old(self).tape_head as int,
                old(self).tape@[old(self).tape_head as int].spec_decrement(),
            ),
            r == Ok::<usize, VirtualMachineError>((old(self).program_position + 1) as usize),
            final(self).program == old(self).program,
            final(self).tape_head == old(self).tape_head,
            final(self).program_position == old(self).program_position,
            final(self).growable == old(self).growable,
    {
        proof {
            self.program.lemma_instructions_fit();
        }
        let h = self.tape_head;
        let v = self.tape[h].decrement();
        self.tape.set(h, v);
        Ok(self.program_position + 1)
    }

    /// Stores an input byte in the cell under the head.
    pub fn read_into_cell(&mut self, value: u8) -> (r: Result<usize, VirtualMachineError>)
        requires
            old(self).tape_head < old(self).tape@.len(),
            old(self).program_position < old(self).instructions().len(),
        ensures
            final(self).tape@ == old(self).tape@.update(
                old(self).tape_head as int,
                T::spec_from_u8(value),
            ),
            r == Ok::<usize, VirtualMachineError>((old(self).program_position + 1) as usize),
            final(self).program == old(self).program,
            final(self).tape_head == old(self).tape_head,
            final(self).program_position == old(self).program_position,
            final(self).growable == old(self).growable,
    {
        proof {
            self.program.lemma_instructions_fit();
        }
        let h = self.tape_head;
        self.tape.set(h, T::from_u8(value));
        Ok(self.program_position + 1)
    }

    /// Writes the cell under the head, as one byte, to the end of `output`.
    pub fn write_out_of_cell(&mut self, output: &mut Vec<u8>) -> (r: Result<
        usize,
        VirtualMachineError,
    >)
        requires
            old(self).tape_head < old(self).tape@.len(),
            old(self).program_position < old(self).instructions().len(),
        ensures
            final(output)@ == old(output)@.push(
                old(self).tape@[old(self).tape_head as int].spec_to_u8(),
            ),
            r == Ok::<usize, VirtualMachineError>((old(self).program_position + 1) as usize),
            *final(self) == *old(self),
    {
        proof {
            self.program.lemma_instructions_fit();
        }
        output.push(self.tape[self.tape_head].to_u8());
        Ok(self.program_position + 1)
    }

    /// Moves the head one cell to the right. The head is checked before and
    /// after the move: a move past the end grows a growable tape by one zero
    /// cell, and fails on any other.
    pub fn move_right(&mut self) -> (r: Result<usize, VirtualMachineError>)
        requires
            old(self).tape_head < old(self).tape@.len(),
            old(self).program_position < old(self).instructions().len(),
        ensures
            final(self).program == old(self).program,
            final(self).tape_head == old(self).tape_head + 1,
            final(self).program_position == old(self).program_position,
            final(self).growable == old(self).growable,
            old(self).tape_head + 1 < old(self).tape@.len() ==> {
                &&& r == Ok::<usize, VirtualMachineError>((old(self).program_position + 1) as usize)
                &&& final(self).tape@ == old(self).tape@
            },
            old(self).tape_head + 1 == old(self).tape@.len() && old(self).growable ==> {
                &&& r == Ok::<usize, VirtualMachineError>((old(self).program_position + 1) as usize)
                &&& final(self).tape@ == old(self).tape@.push(Self::zero())
            },
            old(self).tape_head + 1 == old(self).tape@.len() && !old(self).growable ==> {
                &&& r is Err
                &&& old(self).is_head_error(r->Err_0, (old(self).tape_head + 1) as usize)
                &&& final(self).tape@ == old(self).tape@
            },
    {
        proof {
            self.program.lemma_instructions_fit();
            assert(self.tape.len() == self.tape@.len());
        }
        match self.check_head_location() {
            Ok(_) => {},
            Err(e) => {
                return Err(e);
            },
        }
        self.tape_head = self.tape_head + 1;
        match self.check_head_location() {
            Ok(_) => Ok(self.program_position + 1),
            Err(e) => Err(e),
        }
    }

    /// Moves the head one cell to the left; fails on the first cell.
    pub fn move_left(&mut self) -> (r: Result<usize, VirtualMachineError>)
        requires
            old(self).tape_head < old(self).tape@.len(),
            old(self).program_position < old(self).instructions().len(),
        ensures
            final(self).program == old(self).program,
            final(self).tape@ == old(self).tape@,
            final(self).program_position == old(self).program_position,
            final(self).growable == old(self).growable,
            old(self).tape_head == 0 ==> {
                &&& r is Err
                &&& old(self).is_head_error(r->Err_0, 0)
                &&& final(self).tape_head == 0
            },
            old(self).tape_head > 0 ==> {
                &&& r == Ok::<usize, VirtualMachineError>((old(self).program_position + 1) as usize)
                &&& final(self).tape_head == old(self).tape_head - 1
            },
    {
        proof {
            self.program.lemma_instructions_fit();
        }
        match self.check_head_location() {
            Ok(_) => {},
            Err(e) => {
                return Err(e);
            },
        }
        if self.tape_head == 0 {
            Err(self.head_error())
        } else {
            self.tape_head = self.tape_head - 1;
            match self.check_head_location() {
                Ok(_) => Ok(self.program_position + 1),
                Err(e) => Err(e),
            }
        }
    }

    /// Jumps from an open bracket to its close bracket, which decides whether
    /// the loop runs. Fails where the position has no recorded partner, which
    /// never happens at an open bracket of a loaded program.
    pub fn start_loop(&mut self) -> (r: Result<usize, VirtualMachineError>)
        ensures
            *final(self) == *old(self),
            ({
                let pairs = old(self).program.spec_pairs();
                let p = old(self).program_position;
                if pairs.contains_key(p) {
                    r == Ok::<usize, VirtualMachineError>(pairs[p])
                } else {
                    r == Err::<usize, VirtualMachineError>(VirtualMachineError::BracketFailure)
                }
            }),
            old(self).program.wf() && old(self).program_position < old(self).instructions().len()
                && old(self).current().spec_operation() == Operation::StartLoop ==> r is Ok,
    {
        proof {
            if self.program.wf() && self.program_position < self.instructions().len() {
                assert(operations(self.instructions())[self.program_position as int]
                    == self.current().spec_operation());
            }
        }
        match self.program.bracket_matching_positions().get(&self.program_position) {
            Some(close) => Ok(*close),
            None => Err(VirtualMachineError::BracketFailure),
        }
    }

    /// At a close bracket: where the cell under the head is not zero, jumps
    /// back to the instruction after the matching open bracket; otherwise
    /// goes on to the next instruction.
    pub fn end_loop(&mut self) -> (r: Result<usize, VirtualMachineError>)
        requires
            old(self).wf(),
            old(self).program_position < old(self).instructions().len(),
        ensures
            *final(self) == *old(self),
            ({
                let closes = old(self).program.spec_closes();
                let p = old(self).program_position;
                if old(self).tape@[old(self).tape_head as int] != Self::zero()
                    && closes.contains_key(p) {
                    r == Ok::<usize, VirtualMachineError>((closes[p] + 1) as usize)
                } else {
                    r == Ok::<usize, VirtualMachineError>((p + 1) as usize)
                }
            }),
    {
        proof {
            self.program.lemma_instructions_fit();
        }
        if !self.tape[self.tape_head].is_zero() {
            match self.program.closing_positions().get(&self.program_position) {
                Some(open) => {
                    proof {
                        let pairs = self.program.spec_pairs();
                        assert(pairs.contains_key(*open) && pairs[*open] == self.program_position);
                    }
                    return Ok(*open + 1);
                },
                None => {},
            }
        }
        Ok(self.program_position + 1)
    }

    /// Runs the instruction at the current position and moves the position
    /// to the one that its handler returns.
    ///
    /// Past the last instruction the run is over ([`Status::Halted`]). An
    /// input instruction takes the byte in `input`, or, where there is none,
    /// waits ([`Status::AwaitingInput`]) without changing anything. An output
    /// instruction appends its byte to `output`. An error leaves the machine
    /// as the failing handler left it.
    pub fn step(&mut self, input: &mut Option<u8>, output: &mut Vec<u8>) -> (r: Result<
        Status,
        VirtualMachineError,
    >)
        requires
            old(self).wf(),
        ensures
            final(self).program == old(self).program,
            final(self).growable == old(self).growable,
            r is Ok ==> final(self).wf(),
            ({
                let s = *old(self);
                let t = *final(self);
                let h = s.tape_head as int;
                let p = s.program_position as int;
                let cell = s.tape@[h];
                let unchanged = t == s && *final(input) == *old(input) && final(output)@ == old(
                    output,
                )@;
                let moved = *final(input) == *old(input) && final(output)@ == old(output)@;
                if p == s.instructions().len() {
                    r == Ok::<Status, VirtualMachineError>(Status::Halted) && unchanged
                } else {
                    match s.current().spec_operation() {
                        Operation::IncrementByte => {
                            &&& r == Ok::<Status, VirtualMachineError>(Status::Running) && moved
                            &&& t.tape@ == s.tape@.update(h, cell.spec_increment())
                            &&& t.tape_head == h && t.program_position == p + 1
                        },
                        Operation::DecrementByte => {
                            &&& r == Ok::<Status, VirtualMachineError>(Status::Running) && moved
                            &&& t.tape@ == s.tape@.update(h, cell.spec_decrement())
                            &&& t.tape_head == h && t.program_position == p + 1
                        },
                        Operation::IncrementPointer => {
                            &&& moved && t.tape_head == h + 1
                            &&& if h + 1 < s.tape@.len() {
                                &&& r == Ok::<Status, VirtualMachineError>(Status::Running)
                                &&& t.tape@ == s.tape@ && t.program_position == p + 1
                            } else if s.growable {
                                &&& r == Ok::<Status, VirtualMachineError>(Status::Running)
                                &&& t.tape@ == s.tape@.push(Self::zero())
                                &&& t.program_position == p + 1
                            } else {
                                &&& r is Err && s.is_head_error(r->Err_0, (h + 1) as usize)
                                &&& t.tape@ == s.tape@ && t.program_position == p
                            }
                        },
                        Operation::DecrementPointer => {
                            &&& moved && t.tape@ == s.tape@
                            &&& if h == 0 {
                                &&& r is Err && s.is_head_error(r->Err_0, 0)
                                &&& t.tape_head == 0 && t.program_position == p
                            } else {
                                &&& r == Ok::<Status, VirtualMachineError>(Status::Running)
                                &&& t.tape_head == h - 1 && t.program_position == p + 1
                            }
                        },
                        Operation::OutputByte => {
                            &&& r == Ok::<Status, VirtualMachineError>(Status::Running)
                            &&& final(output)@ == old(output)@.push(cell.spec_to_u8())
                            &&& *final(input) == *old(input)
                            &&& t.tape@ == s.tape@ && t.tape_head == h
                            &&& t.program_position == p + 1
                        },
                        Operation::InputByte => match *old(input) {
                            None => r == Ok::<Status, VirtualMachineError>(Status::AwaitingInput)
                                && unchanged,
                            Some(b) => {
                                &&& r == Ok::<Status, VirtualMachineError>(Status::Running)
                                &&& *final(input) == None::<u8>
                                &&& final(output)@ == old(output)@
                                &&& t.tape@ == s.tape@.update(h, T::spec_from_u8(b))
                                &&& t.tape_head == h && t.program_position == p + 1
                            },
                        },
                        Operation::StartLoop => {
                            &&& r == Ok::<Status, VirtualMachineError>(Status::Running) && moved
                            &&& t.tape@ == s.tape@ && t.tape_head == h
                            &&& t.program_position == s.program.spec_pairs()[p as usize]
                        },
                        Operation::EndLoop => {
                            let closes = s.program.spec_closes();
                            &&& r == Ok::<Status, VirtualMachineError>(Status::Running) && moved
                            &&& t.tape@ == s.tape@ && t.tape_head == h
                            &&& t.program_position == if cell != Self::zero() && closes.contains_key(
                                p as usize,
                            ) {
                                closes[p as usize] + 1
                            } else {
                                p + 1
                            }
                        },
                    }
                }
            }),
    {
        proof {
            self.program.lemma_instructions_fit();
        }
        if self.program_position >= self.program.instructions().len() {
            return Ok(Status::Halted);
        }
        let operation = self.program.instructions()[self.program_position].operation();
        let next = match operation {
            Operation::IncrementByte => self.increment_cell_at_head(),
            Operation::DecrementByte => self.decrement_cell_at_head(),
            Operation::IncrementPointer => self.move_right(),
            Operation::DecrementPointer => self.move_left(),
            Operation::OutputByte => self.write_out_of_cell(output),
            Operation::InputByte => match input.take() {
                Some(b) => self.read_into_cell(b),
                None => {
                    return Ok(Status::AwaitingInput);
                },
            },
            Operation::StartLoop => self.start_loop(),
            Operation::EndLoop => self.end_loop(),
        };
        match next {
            Ok(position) => {
                self.program_position = position;
                Ok(Status::Running)
            },
            Err(e) => Err(e),
        }
    }
}

} // verus!
