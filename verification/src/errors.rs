//! Runtime error kinds.  Runtime errors are fatal to evaluation: the
//! first one aborts the program being interpreted.

use vstd::prelude::*;
use vstd::string::*;

verus! {

/// Everything that can go wrong while evaluating: an operand that is
/// not the integer, string or boolean its operator needs, an operator
/// no rule covers, division by zero, an arithmetic result outside the
/// machine range, and a reference to an unbound variable.
#[derive(Clone, Copy, Debug, PartialEq, Eq, Structural)]
pub enum Runtime {
    NotInt,
    NotString,
    InvalidOperation,
    NotBool,
    DivisionByZero,
    Overflow,
    UndefinedVariable,
}

/// The diagnostic text of each error kind.
pub open spec fn runtime_text(e: Runtime) -> Seq<char> {
    match e {
        Runtime::NotInt => "Not an integer"@,
        Runtime::NotString => "Not a string"@,
        Runtime::InvalidOperation => "Operation is invalid"@,
        Runtime::NotBool => "Not a boolean"@,
        Runtime::DivisionByZero => "Division by zero"@,
        Runtime::Overflow => "Arithmetic overflow"@,
        Runtime::UndefinedVariable => "Undefined variable"@,
    }
}

impl Runtime {
    /// The diagnostic text of the error.
    pub fn message(&self) -> (r: String)
        ensures
            r@ == runtime_text(*self),
    {
        match self {
            Runtime::NotInt => String::from_str("Not an integer"),
            Runtime::NotString => String::from_str("Not a string"),
            Runtime::InvalidOperation => String::from_str("Operation is invalid"),
            Runtime::NotBool => String::from_str("Not a boolean"),
            Runtime::DivisionByZero => String::from_str("Division by zero"),
            Runtime::Overflow => String::from_str("Arithmetic overflow"),
            Runtime::UndefinedVariable => String::from_str("Undefined variable"),
        }
    }
}

} // verus!
