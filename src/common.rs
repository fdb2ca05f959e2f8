use vstd::prelude::*;

verus! {

/// Pointer-width unsigned count, used for repetitions and jump targets.
pub type Count = usize;

/// The atomic commands of the source language.
///
/// `Begin` and `End` stand for the loop brackets and occur only in the
/// lexer's output, never inside a tree IR.
#[derive(Clone, Copy, Debug, PartialEq, Eq, Structural)]
pub enum Command {
    Left,
    Right,
    Add(u8),
    In,
    Out,
    Begin,
    End,
}

/// The composite instruction alphabet shared by the optimized IRs and the bytecode.
#[derive(Clone, Copy, Debug, PartialEq, Eq, Structural)]
pub enum Instruction {
    Left(Count),
    Right(Count),
    Add(u8),
    In,
    Out,
    JumpZero(Count),
    JumpNotZero(Count),
    SetZero,
    OffsetAddRight(Count),
    OffsetAddLeft(Count),
    FindZeroRight(Count),
    FindZeroLeft(Count),
}

impl Instruction {
    pub fn is_left(&self) -> (r: bool)
        ensures
            r == (*self is Left),
    {
        matches!(self, Instruction::Left(_))
    }

    pub fn is_right(&self) -> (r: bool)
        ensures
            r == (*self is Right),
    {
        matches!(self, Instruction::Right(_))
    }

    pub fn is_find_zero_left(&self) -> (r: bool)
        ensures
            r == (*self is FindZeroLeft),
    {
        matches!(self, Instruction::FindZeroLeft(_))
    }

    pub fn is_find_zero_right(&self) -> (r: bool)
        ensures
            r == (*self is FindZeroRight),
    {
        matches!(self, Instruction::FindZeroRight(_))
    }
}

/// The errors of parsing and of running a program.
#[derive(Clone, Copy, Debug, PartialEq, Eq, Structural)]
pub enum BfError {
    /// The source ends with an open loop.
    UnmatchedBegin,
    /// A `]` has no matching `[`.
    UnmatchedEnd,
    /// The head moved below the start of the tape.
    PointerUnderflow,
    /// The head moved past the end of the tape.
    PointerOverflow,
    /// The step budget handed to an interpreter ran out.
    StepLimit,
}

impl BfError {
    /// A human-readable description of the error.
    pub fn message(&self) -> (r: String)
        ensures
            r@ == match *self {
                BfError::UnmatchedBegin => "unmatched '['"@,
                BfError::UnmatchedEnd => "unmatched ']'"@,
                BfError::PointerUnderflow => "pointer underflow"@,
                BfError::PointerOverflow => "pointer overflow"@,
                BfError::StepLimit => "step limit reached"@,
            },
    {
        match self {
            BfError::UnmatchedBegin => String::from_str("unmatched '['"),
            BfError::UnmatchedEnd => String::from_str("unmatched ']'"),
            BfError::PointerUnderflow => String::from_str("pointer underflow"),
            BfError::PointerOverflow => String::from_str("pointer overflow"),
            BfError::StepLimit => String::from_str("step limit reached"),
        }
    }
}

/// Results of the library's fallible operations.
pub type BfResult<T> = Result<T, BfError>;

} // verus!
