use vstd::prelude::*;
use vstd::string::*;

verus! {

/// Why a batch of postfix expressions is rejected. Every error is fatal to
/// the whole run: a single malformed line invalidates the entire input, and
/// no partial output is produced.
#[derive(Clone, Copy, Debug, PartialEq, Eq, Structural)]
pub enum EvalError {
    /// A raw input line holds a character that is not a digit, a decimal
    /// point, an operator or whitespace.
    InvalidCharacter,
    /// A numeric token is not a valid number: more than one decimal point,
    /// or no digit at all.
    ParseNumber,
    /// Operator and operand counts do not match: an operator found fewer
    /// than two operands on the stack, or the final stack did not hold
    /// exactly one value.
    Malformed,
}

impl EvalError {
    /// Diagnostic text shown to the user when this error aborts the run.
    pub fn message(&self) -> (r: String)
        ensures
            r@ == match *self {
                EvalError::InvalidCharacter => "File has invalid characters"@,
                EvalError::ParseNumber => "Failed to convert token to a number"@,
                EvalError::Malformed => "File is invalid"@,
            },
    {
        match self {
            EvalError::InvalidCharacter => String::from_str("File has invalid characters"),
            EvalError::ParseNumber => String::from_str("Failed to convert token to a number"),
            EvalError::Malformed => String::from_str("File is invalid"),
        }
    }
}

} // verus!
