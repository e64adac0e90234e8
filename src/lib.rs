//! A tree-walking interpreter for a small procedural scripting language:
//! a lexer, a recursive-descent parser and an evaluator over a chain of scopes.
use vstd::prelude::*;

pub mod interpreter;
pub mod laws;
pub mod lexer;
pub mod model;
pub mod parser;
pub mod semantics;
pub mod state;
pub mod text;
pub mod token;
pub mod value;

verus! {

} // verus!
