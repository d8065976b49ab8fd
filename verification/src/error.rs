//! Errors raised while a program runs.

use vstd::prelude::*;
use crate::token::Token;

verus! {

/// A runtime error: what went wrong, and the token at which it did, if one
/// is to blame.
#[derive(Debug)]
pub struct RuntimeError {
    pub message: String,
    pub token: Option<Token>,
}

/// The mathematical model of a runtime error.
pub struct RuntimeErrorView {
    pub message: Seq<char>,
    pub token: Option<Token>,
}

impl View for RuntimeError {
    type V = RuntimeErrorView;

    open spec fn view(&self) -> RuntimeErrorView {
        RuntimeErrorView { message: self.message@, token: self.token }
    }
}

impl RuntimeError {
    pub fn new(message: String, token: Option<Token>) -> (error: Self)
        ensures
            error.message == message,
            error.token == token,
    {
        Self { message, token }
    }
}

} // verus!
