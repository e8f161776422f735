use vstd::prelude::*;

verus! {

/// Every way reading or evaluating a line can end other than with a value.
#[derive(Debug, PartialEq, Eq)]
pub enum ErrorKind {
    /// A symbol with no binding in any enclosing scope.
    UndefinedSymbol(String),
    /// A procedure received the wrong number of arguments.
    Arity,
    /// An argument of a type the procedure does not take.
    Type,
    /// An integer divisor of zero.
    DivisionByZero,
    /// An ordering asked of two values that have none.
    ComparisonUndefined,
    /// An integer result outside the 64-bit range.
    Overflow,
    /// The head of an application is not a procedure.
    NotCallable,
    /// Evaluation nested deeper than its budget.
    TooDeep,
    /// Malformed input; the index of the offending token.
    Parse(usize),
    /// Input with no tokens at all.
    Eof,
    /// A request to end the process with this status code.
    Exit(i32),
}

} // verus!
