//! Core of an interface-definition-language compiler: it takes a parsed
//! schema of structs and functions, merges the per-file item trees into one
//! namespace, validates name resolution and concreteness rules, orders the
//! items by their layout dependencies, and gives every compound type a
//! canonical mangled name from which target representations derive their
//! helper declarations.

pub mod ast;
pub mod compile;
pub mod diag;
pub mod graph;
pub mod namespace;
pub mod render;
pub mod sort;
pub mod surface;
pub mod symbols;
pub mod type_check;
pub mod mangle;
pub mod mangle_proof;
pub mod valid;

use vstd::prelude::*;

verus! {

} // verus!
