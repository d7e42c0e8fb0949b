//! A small interpreter for a parenthesized, Lisp-family expression language:
//! text in, evaluated value out.  The pipeline is a lexer, a recursive-descent
//! parser, a chain of name-to-value scopes, and an evaluator with special
//! forms (`define`, `if`, `do`, `lambda`, `quote`, `print`) and binary
//! operators spelled as prefix calls.
//!
//! Numbers are fixed-width 64-bit signed integers; arithmetic wraps around on
//! overflow, and division truncates toward zero.  Evaluation depth is bounded:
//! a program nested (or calling) deeper than the limit reports an error
//! instead of exhausting the call stack.

pub mod atom;
pub mod environment;
pub mod evaluator;
pub mod laws;
pub mod lexer;
pub mod parser;
pub mod program_arguments;
pub mod render;
pub mod text;

