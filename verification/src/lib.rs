//! A calculator for the command line, as a library: a line editor, the
//! stages that rewrite a line into an expression, a store of variables, a
//! history of expressions and a registry of commands.
//!
//! The library touches no terminal and ends no program. It says what is to
//! be shown and done, and leaves the showing and doing to its caller.

pub mod command;
pub mod custom_io;
pub mod default_commands;
pub mod history;
pub mod invalid_expression;
pub mod numeral;
pub mod parameter_documentation;
pub mod parse_error;
pub mod parser;
pub mod radix;
pub mod session;
pub mod text;
pub mod tokens;
pub mod variable;
pub mod variables;
