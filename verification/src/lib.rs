//! An interpreter for a small language whose comments are first-class values.
//!
//! A program is a sequence of expressions. A comment that carries a name is a
//! string that the program can read and assign; after a run, the program's
//! text can be written out again with the bodies that its comments then have.
//!
//! - [`parser`] holds the program tree, and [`grammar`] says which tree a
//!   text is; [`parse`] finds it.
//! - [`semantics`] says what the evaluation of a tree gives; [`interp`]
//!   evaluates, over the values of [`value`] and the tables of [`names`],
//!   with the failures of [`error`]; [`table`] lays out the names of the help.
//! - [`reassemble`] writes a tree as text.
//! - [`laws`] and [`roundtrip`] hold what is proved of all programs.
//! - [`text`] holds what the others need of characters and strings.

pub mod error;
pub mod grammar;
pub mod interp;
pub mod laws;
pub mod names;
pub mod parse;
pub mod parser;
pub mod reassemble;
pub mod roundtrip;
pub mod semantics;
pub mod table;
pub mod text;
pub mod value;
