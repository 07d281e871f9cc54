//! Error values of the byte machine and of the compiler.

use vstd::prelude::*;

verus! {

/// `std::io::Error`, carried through as the host handed it over.
#[verifier::external_type_specification]
#[verifier::external_body]
pub struct ExIoError(std::io::Error);

/// `anyhow::Error`, carried through as it came.
#[verifier::external_type_specification]
#[verifier::external_body]
pub struct ExAnyhowError(anyhow::Error);

/// What can stop the byte machine.
#[derive(Debug)]
pub enum VMError {
    /// The pointer left the memory, or an access fell outside it.
    MemoryOutOfBounds,
    /// The number in the syscall area names no known call.
    InvalidSyscall,
    /// The step budget ran out.
    ExecutionTimeout,
    /// The host could not read or write a stream.
    IoError(std::io::Error),
}

/// Why a tree could not be compiled.
#[derive(Debug)]
pub enum CompileError {
    /// A variable was read before any assignment to it.
    VariableNotFound(String),
    /// The cell counter would pass the largest tape index.
    AllocationFailed,
    /// A statement stood where a value was expected.
    InvalidExpression,
    /// A value stood where a statement was expected.
    TypeMismatch,
    /// A syscall was given more than six arguments.
    TooManySyscallArgs,
    /// An error from elsewhere, carried through. The compiler raises none.
    Other(anyhow::Error),
}

/// Result of an operation of the byte machine.
pub type VMResult<T> = Result<T, VMError>;

/// Result of a compiler operation.
pub type CompileResult<T> = Result<T, CompileError>;

} // verus!
