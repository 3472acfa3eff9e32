//! Code-mode: the bounded guest language's lexer, TypeScript stripping, body recovery
//! and kernel selection.

use vstd::prelude::*;

pub mod lex;
pub mod strip;
pub mod recover;
pub mod kernel;
pub mod ast;
pub mod parse;
pub mod bridge;
pub mod eval;
pub mod prepare;

verus! {

/// Code-mode parse / runtime failure.
#[derive(Clone, Debug, PartialEq, Eq)]
pub struct CodeError(pub String);

impl CodeError {
    /// Wrap a message.
    pub fn new(message: &str) -> (r: Self)
        ensures
            r.0@ == message@,
    {
        CodeError(crate::text::copy_str(message))
    }
}

} // verus!
