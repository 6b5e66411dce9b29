//! A small turtle-graphics language: source text is parsed into a tree and
//! evaluated into the ordered list of drawing commands that it asks for.
//!
//! * [`lexer`] finds the tokens of a source text, and [`grammar`] says which
//!   tree a sequence of tokens stands for; [`parser`] holds the tree and the
//!   function that builds it, [`parser::parse_logo_source`].
//! * [`interpreter::semantics`] says what a tree means: a function from the
//!   state of a machine to a value and a new state. [`interpreter`] holds the
//!   machine that computes it, and [`interpreter::evaluate`], which runs a
//!   program from a fresh state. [`interpreter::builtins`] is the table of
//!   built-in procedures, [`interpreter::value`] the values.
//! * [`drawer`] holds the drawing commands, [`number`] the numbers.
//! * [`laws`] and [`syntax_laws`] prove what follows for all programs of
//!   some shapes.
//!
//! Every executable function is proved to meet its contract. What the proofs
//! take on trust is named where it is used: the arithmetic of numbers, which
//! `rustc_apfloat` does, the random draws, which `rand` makes, and that
//! `String::push` appends a character.
pub mod drawer;
pub mod grammar;
pub mod interpreter;
pub mod laws;
pub mod lexer;
pub mod number;
pub mod ordering;
pub mod parser;
pub mod syntax_laws;
