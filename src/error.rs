//! The ways a compilation can fail.
use vstd::prelude::*;

verus! {

#[derive(Debug, Clone, Copy, PartialEq, Eq, Structural)]
pub enum CompileError {
    /// A name declared twice in one scope.
    Redefinition,
    /// A name used where no enclosing scope declares it.
    Undeclared,
    /// A call of a function that the unit does not define.
    UndeclaredFunction,
    /// An assignment whose target is a constant.
    AssignToConst,
    /// A variable inside a constant initializer.
    NonConstant,
    /// The value of a call of a `void` function used in an expression.
    VoidValue,
    /// A name that is not an identifier (ASCII letters, digits and `_`, not
    /// starting with a digit).
    BadName,
    /// `break` with no enclosing loop.
    BreakOutsideLoop,
    /// `continue` with no enclosing loop.
    ContinueOutsideLoop,
    /// A counter for names or labels ran out of values.
    TooLarge,
    /// The emitted IR was refused by the IR reader.
    MalformedIr,
}

} // verus!
