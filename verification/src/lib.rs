//! A small dynamically typed scripting language: integers, floats, strings
//! and booleans, variables in nested scopes, `print`, `while` and blocks.
//!
//! The pipeline has three stages:
//!
//! - [`lexer`] turns a source text into [`token`]s, and goes on behind what
//!   is no token;
//! - [`parser`] turns tokens into [`stmt`]s over [`expr`]s as [`grammar`]
//!   says, and gathers the errors of all statements;
//! - [`executor`] runs the statements on an abstract [`machine`], one
//!   transition at a time.
//!
//! The library never touches binary32 arithmetic or the terminal itself. A
//! float is held by its bits; where a program needs to round, to read or to
//! write one, or to print, the machine tells its host and goes on once the
//! host has answered. [`semantics`] and [`program`] say what expressions and
//! statements come to under a host, and prove that the machine does exactly
//! that. [`interpreter`] puts the stages together.

pub mod errors;
pub mod executor;
pub mod expr;
pub mod grammar;
pub mod interpreter;
pub mod lexer;
pub mod machine;
pub mod parser;
pub mod program;
pub mod scope;
pub mod semantics;
pub mod stmt;
pub mod text;
pub mod token;
pub mod value;
