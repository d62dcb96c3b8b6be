//! A small stack language: whitespace-separated words are tokenized against a
//! dictionary of native and user-defined words and executed on a stack of
//! 64-bit integers, with nested `if` / `else` / `then`.
//!
//! Every executable function carries a contract over the mathematical model
//! in [`model`]; the module [`laws`] states what follows for whole programs.

pub mod model;
pub mod native;
pub mod text;
pub mod dictionary;
pub mod lexer;
pub mod machine;
pub mod laws;

pub use dictionary::Dictionary;
pub use machine::Machine;
pub use model::{Definition, ForthError, Keyword, NativeOp, Token};
