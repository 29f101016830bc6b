//! The fatal error taxonomy of the machine. Nothing is retried: a malformed
//! or corrupted bytecode stream indicates a toolchain defect upstream, so
//! every error aborts the run immediately.

use vstd::prelude::*;

verus! {

/// A fatal condition, carrying the offending offset or id where one exists.
#[derive(Clone, Copy, Debug, PartialEq, Eq, Structural)]
pub enum VmError {
    /// The buffer is shorter than the 4-byte header.
    TruncatedHeader,
    /// The architecture marker is not 2, 4 or 8.
    InvalidArch,
    /// The declared procedure count is negative.
    NegativeCount,
    /// A byte of the code segment denotes no opcode.
    UnknownOpcode { offset: usize },
    /// A scan or the program counter ran past the end of the buffer.
    ScanPastEnd,
    /// An `EntryProc` or a `CallProc` names a procedure id outside the
    /// declared count.
    BadProcedureId { offset: usize },
    /// A declared procedure id was never defined by an `EntryProc`.
    MissingProcedure { id: usize },
    /// A `PushConstant` index lies outside the constant pool.
    BadConstantIndex { offset: usize },
    /// A resolved data address is negative or beyond the stack limit.
    BadAddress,
    /// A branch target lies outside the program buffer.
    BadJumpTarget,
    /// A value was popped from a stack shorter than one word.
    StackUnderflow,
    /// Growing the execution stack would exceed the fixed stack limit.
    StackLimit,
    /// A lexical level walks past the outermost activation frame.
    BadLexicalLevel,
    /// A string literal is not valid UTF-8.
    InvalidLiteral { offset: usize },
    /// The right operand of a division is zero.
    DivisionByZero,
    /// The text supplied to the read instruction is not a valid integer.
    InputNotNumeric,
}

/// The classes of fatal errors: a malformed program, bad runtime input, or
/// an impossible arithmetic operation.
#[derive(Clone, Copy, Debug, PartialEq, Eq, Structural)]
pub enum ErrorKind {
    FormatError,
    RuntimeInputError,
    ArithmeticError,
}

impl VmError {
    /// Which class of the taxonomy an error belongs to.
    pub open spec fn spec_kind(self) -> ErrorKind {
        match self {
            VmError::InputNotNumeric => ErrorKind::RuntimeInputError,
            VmError::DivisionByZero => ErrorKind::ArithmeticError,
            _ => ErrorKind::FormatError,
        }
    }

    pub fn kind(&self) -> (k: ErrorKind)
        ensures
            k == self.spec_kind(),
    {
        match self {
            VmError::InputNotNumeric => ErrorKind::RuntimeInputError,
            VmError::DivisionByZero => ErrorKind::ArithmeticError,
            _ => ErrorKind::FormatError,
        }
    }
}

} // verus!
