//! A single-pass compiler and stack machine for arithmetic expressions.
//!
//! Source text is scanned into tokens, parsed by operator precedence
//! straight into bytecode, and executed by a stack machine. Every function
//! of the library is verified against a contract over a mathematical model
//! of its data.
//!
//! The machine does no arithmetic on doubles: it carries each number as the
//! expression that denotes it, and the embedding program gives the
//! expression its IEEE-754 reading.
//!
//! - [`common`], [`value`], [`chunk`]: the instruction set, numbers, and
//!   the unit of compiled code.
//! - [`scanner`], [`compiler`], [`vm`]: source to tokens, tokens to code,
//!   code to a result.
//! - [`text`], [`debug`]: decimal text, and the listing of a chunk.
//! - [`grammar`]: what an expression denotes.
//! - [`soundness`], [`acceptance`]: a source compiles if and only if it is
//!   an expression, and the machine then hands out what it denotes.
//! - [`invariance`], [`spacing`]: blanks between tokens do not change the
//!   code.

pub mod acceptance;
pub mod chunk;
pub mod common;
pub mod compiler;
pub mod debug;
pub mod grammar;
pub mod invariance;
pub mod scanner;
pub mod soundness;
pub mod spacing;
pub mod text;
pub mod value;
pub mod vm;
