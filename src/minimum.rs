//! The `minimum` keyword: a lower bound compared exactly in the limit's own representation.
use vstd::prelude::*;
use crate::json::{Json, JsonModel, Number};
use crate::keywords::{Node, Validator};
use crate::number::classify_spec;
use crate::scope::CompilationError;

verus! {

/// `minimum` with a limit that is an unsigned integer.
#[derive(Clone, Copy, Debug)]
pub struct MinimumU64Validator {
    pub limit: u64,
}

/// `minimum` with a limit that is a negative signed integer.
#[derive(Clone, Copy, Debug)]
pub struct MinimumI64Validator {
    pub limit: i64,
}

/// `minimum` with a limit that is no integer: `mantissa * 2^exponent`.
#[derive(Clone, Copy, Debug)]
pub struct MinimumF64Validator {
    pub mantissa: i64,
    pub exponent: i32,
}

/// What the `minimum` keyword with `value` compiles to.
pub open spec fn minimum_keyword(value: JsonModel) -> Result<Node, CompilationError> {
    match value {
        JsonModel::Number(n) => Ok(Node::Minimum(classify_spec(n))),
        _ => Err(CompilationError::SchemaError),
    }
}

/// Compiles `minimum`: its limit is classified as unsigned, else signed, else float;
/// any value but a number is rejected.
pub fn compile(value: &Json) -> (r: Result<Validator, CompilationError>)
    ensures
        match minimum_keyword(value@) {
            Ok(n) => r matches Ok(v) && v@ == n,
            Err(e) => r matches Err(x) && x == e,
        },
{
    match value {
        Json::Number(n) => Ok(compile_limit(*n)),
        _ => Err(CompilationError::SchemaError),
    }
}

/// The `minimum` validator for `limit`, in the representation it is classified into.
pub fn compile_limit(limit: Number) -> (r: Validator)
    ensures
        r@ == Node::Minimum(classify_spec(limit)),
{
    match limit.classify() {
        Number::Unsigned(u) => Validator::MinimumU64(MinimumU64Validator { limit: u }),
        Number::Signed(s) => Validator::MinimumI64(MinimumI64Validator { limit: s }),
        Number::Float { mantissa, exponent } => Validator::MinimumF64(MinimumF64Validator { mantissa, exponent }),
    }
}

} // verus!
