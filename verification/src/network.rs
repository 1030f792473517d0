//! The decision of where a new wallet's birthday lies below the chain tip.
use vstd::prelude::*;

verus! {

/// How many blocks below the chain tip a new wallet's birthday tree state is taken.
pub const BIRTHDAY_DEPTH: u64 = 100;

/// The height of the birthday tree state for a chain tip: `BIRTHDAY_DEPTH` blocks below
/// it; fails when the chain is shorter than that.
pub fn birthday_tree_height(tip: u64) -> (r: Result<u64, String>)
    ensures
        r is Ok <==> tip >= BIRTHDAY_DEPTH,
        r matches Ok(height) ==> height + BIRTHDAY_DEPTH == tip,
        r matches Err(e) ==> e@ == "Chain height is too low to subtract 100 blocks"@,
{
    match tip.checked_sub(BIRTHDAY_DEPTH) {
        Some(height) => Ok(height),
        None => Err(String::from_str("Chain height is too low to subtract 100 blocks")),
    }
}

} // verus!
