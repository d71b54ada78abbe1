//! The error of a line that cannot be taken as an expression.

use vstd::prelude::*;
use crate::text::copy_str;

verus! {

/// A line that cannot be taken as an expression, and why.
#[derive(Debug, PartialEq, Eq)]
pub struct InvalidExpression {
    pub message: String,
}

impl Default for InvalidExpression {
    /// The error that says no more than that the expression is invalid.
    fn default() -> (r: Self)
        ensures
            r.message@ == "Expression is invalid"@,
    {
        Self { message: copy_str("Expression is invalid") }
    }
}

impl InvalidExpression {
    /// An error that says `message`.
    pub fn new(message: &str) -> (r: Self)
        ensures
            r.message@ == message@,
    {
        InvalidExpression { message: copy_str(message) }
    }

    /// What the error says.
    pub fn to_string(&self) -> (r: String)
        ensures
            r@ == self.message@,
    {
        copy_str(self.message.as_str())
    }
}

} // verus!
