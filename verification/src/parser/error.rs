//! Why a compilation stops.
use vstd::prelude::*;

verus! {

/// The reason a pass gave up.  Every error ends the pass at once: nothing
/// that was produced before it is valid output.
#[derive(Clone, Copy, Debug, PartialEq, Eq, Structural)]
pub enum CompileError {
    /// An identifier was used before any declaration introduced it.
    UndeclaredIdentifier,
    /// An identifier was declared a second time.
    Redeclaration,
    /// A constant initialiser read a variable.
    NotConstant,
    /// An assignment names a constant.
    NotAssignable,
    /// A register was needed and none of the pool was free.
    AllocatorExhaustion,
    /// A constant division or remainder had a zero divisor.
    DivisionByZero,
    /// The program holds something the assembly stage has no rule for: an
    /// instruction or operator outside the supported set, or a handle that
    /// leads nowhere.
    InvalidProgram,
}

/// The three families of errors.
#[derive(Clone, Copy, Debug, PartialEq, Eq, Structural)]
pub enum ErrorKind {
    Semantic,
    Allocator,
    Arithmetic,
}

impl CompileError {
    /// The family an error belongs to.
    pub open spec fn spec_kind(self) -> ErrorKind {
        match self {
            CompileError::UndeclaredIdentifier => ErrorKind::Semantic,
            CompileError::Redeclaration => ErrorKind::Semantic,
            CompileError::NotConstant => ErrorKind::Semantic,
            CompileError::NotAssignable => ErrorKind::Semantic,
            CompileError::InvalidProgram => ErrorKind::Semantic,
            CompileError::AllocatorExhaustion => ErrorKind::Allocator,
            CompileError::DivisionByZero => ErrorKind::Arithmetic,
        }
    }

    /// The family an error belongs to.
    #[verifier::when_used_as_spec(spec_kind)]
    pub fn kind(self) -> (k: ErrorKind)
        ensures
            k == self.spec_kind(),
    {
        match self {
            CompileError::UndeclaredIdentifier => ErrorKind::Semantic,
            CompileError::Redeclaration => ErrorKind::Semantic,
            CompileError::NotConstant => ErrorKind::Semantic,
            CompileError::NotAssignable => ErrorKind::Semantic,
            CompileError::InvalidProgram => ErrorKind::Semantic,
            CompileError::AllocatorExhaustion => ErrorKind::Allocator,
            CompileError::DivisionByZero => ErrorKind::Arithmetic,
        }
    }

    /// A one-line diagnostic for the driver to print.
    pub fn message(self) -> (s: &'static str)
        ensures
            s@ == self.spec_message(),
    {
        match self {
            CompileError::UndeclaredIdentifier => "use of an undeclared identifier",
            CompileError::Redeclaration => "identifier declared twice",
            CompileError::NotConstant => "a constant is required here",
            CompileError::NotAssignable => "assignment to a constant",
            CompileError::AllocatorExhaustion => "out of registers",
            CompileError::DivisionByZero => "division by zero in a constant expression",
            CompileError::InvalidProgram => "the program cannot be turned into assembly",
        }
    }

    /// The text of [`CompileError::message`].
    pub open spec fn spec_message(self) -> Seq<char> {
        match self {
            CompileError::UndeclaredIdentifier => "use of an undeclared identifier"@,
            CompileError::Redeclaration => "identifier declared twice"@,
            CompileError::NotConstant => "a constant is required here"@,
            CompileError::NotAssignable => "assignment to a constant"@,
            CompileError::AllocatorExhaustion => "out of registers"@,
            CompileError::DivisionByZero => "division by zero in a constant expression"@,
            CompileError::InvalidProgram => "the program cannot be turned into assembly"@,
        }
    }
}

} // verus!
