//! The error of a text that cannot be read.

use vstd::prelude::*;
use crate::text::copy_str;

verus! {

/// A text that cannot be read, and why.
#[derive(Debug, PartialEq, Eq)]
pub struct ParseError {
    pub message: String,
}

impl ParseError {
    /// An error that says `message`.
    pub fn new(message: &str) -> (r: Self)
        ensures
            r.message@ == message@,
    {
        ParseError { message: copy_str(message) }
    }

    /// What the error says.
    pub fn to_string(&self) -> (r: String)
        ensures
            r@ == self.message@,
    {
        copy_str(self.message.as_str())
    }
}

} // verus!
