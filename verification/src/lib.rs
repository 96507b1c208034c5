//! The front half of a tree-walking language interpreter: a scanner that
//! turns source text into tokens, a recursive-descent parser that turns
//! tokens into an expression/statement tree, and an evaluator that walks
//! the tree, printing values and binding variables in a runtime
//! environment.  A diagnostic pretty-printer for the tree rides along.
//!
//! Runtime values are decided once, when a literal is evaluated, into a
//! tagged value (number, boolean, string, nil); operators match on the
//! tag.  Equality alone compares the textual encodings of its operands,
//! with the text `null` standing for nil.

pub mod ast_printer;
pub mod env;
pub mod errors;
pub mod interpreter;
pub mod lox;
pub mod parser;
pub mod scanner;
pub mod text;
pub mod token;
