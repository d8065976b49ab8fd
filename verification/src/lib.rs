//! A scanner, a parser and an abstract machine for a small dynamically typed
//! scripting language.

pub mod consistency;
pub mod environment;
pub mod error;
pub mod expr;
pub mod interpreter;
pub mod number;
pub mod parser;
pub mod pipeline;
pub mod progress;
pub mod rlox;
pub mod scanner;
pub mod semantics;
pub mod stmt;
pub mod token;

pub use crate::rlox::{error_line, error_token, report};
