//! The first subscription kinds, kept for reading data stored with them.
use vstd::prelude::*;

use crate::utils::abi::{is_supported_func_param, spec_is_supported_func_param};
use crate::utils::text::str_to_chars;

verus! {

/// What a method of the first kind was called with: a pair feed, a random
/// value of the named ABI type, or nothing.
pub enum MethodType {
    Pair,
    Random(String),
    Empty,
}

/// Whether a random input may take the ABI type `func`: a string, bytes, or an
/// unsigned or signed integer type.
pub fn is_valid_func_param(func: &str) -> (res: bool)
    ensures
        res == spec_is_supported_func_param(func@),
{
    let cs = str_to_chars(func);
    is_supported_func_param(&cs)
}

/// The gas limit a new subscription of the first kind got: the estimated gas
/// raised by a fifth, counted in fifths.
pub fn estimated_gas_limit(estimate: u128) -> (res: u128)
    requires
        (estimate / 5) * 6 <= u128::MAX,
    ensures
        res == (estimate / 5) * 6,
{
    (estimate / 5) * 6
}

} // verus!
