//! A terminal calculator built around "fold expressions": an operator followed by
//! operands, folded left to right.
//!
//! This crate holds the calculator's logic: key decoding, parsing of expressions,
//! function definitions and variable commands, cursor movement and the variable
//! table. Numbers are kept as the decimal numerals that were typed; converting them
//! to floating point and doing arithmetic on them happens outside the library.

pub mod text;
pub mod lexical;
pub mod operation;
pub mod decimal;
pub mod char_buf;
pub mod fold_expr;
pub mod function;
pub mod fold_expression;
pub mod io;
pub mod variables;
pub mod terminal;
