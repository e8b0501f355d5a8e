//! Compile-time evaluation of style expressions.
use vstd::prelude::*;

pub mod binding;
pub mod cache;
pub mod coerce;
pub mod deopt;
pub mod evaluator;
pub mod fold;
pub mod grown;
pub mod helpers;
pub mod laws;
pub mod growable_stack;
pub mod messages;
pub mod nodes;
pub mod property;
pub mod semantics;
pub mod state;
pub mod syntax;
pub mod text;
pub mod value;

verus! {
} // verus!
