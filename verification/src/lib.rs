//! A verified arithmetic expression compiler.
//!
//! The library turns a text expression such as `"(2+3)*4"` into a small
//! postfix instruction program, checking the grammar as it goes:
//!
//! ```text
//! expression := term (('+' | '-') term)*      // left-associative
//! term       := factor (('*' | '/') factor)*  // left-associative
//! factor     := NUMBER | ('+' | '-') factor | '(' expression ')'
//! ```
//!
//! Numeric literals are kept as text inside the program; an embedding runs
//! the instructions over its own numeric domain (the intended one is IEEE
//! double precision, which a verified library cannot hold itself).  Every
//! structural error — an invalid literal, a stray character, a missing
//! parenthesis, trailing tokens — is decided here, exactly; division by
//! zero is a value error and is the runner's to raise.

pub mod token;
pub mod lexer;
pub mod program;
pub mod parser;
pub mod compile;
