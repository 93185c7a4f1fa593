//! Compiles JSON Schema documents into validator trees and checks instances against them.
use vstd::prelude::*;

pub mod compilation;
pub mod json;
pub mod keywords;
pub mod minimum;
pub mod number;
pub mod render;
pub mod resolver;
pub mod scope;

verus! {

/// Hands back its argument.
pub fn echo(a: i32) -> (r: i32)
    ensures
        r == a,
{
    a
}

} // verus!
