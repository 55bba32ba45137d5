//! Where the game asks chance for a number.

use vstd::prelude::*;

verus! {

/// A number drawn by `quad_rand::gen_range` between `low` and `high`. The
/// generator scales a fraction below one into the range and cuts the result
/// off towards zero; whatever it draws lies between the two bounds, which is
/// all that the contract says.
#[verifier::external_body]
pub(crate) fn between(low: i32, high: i32) -> (n: i32)
    requires
        low <= high,
    ensures
        low <= n <= high,
{
    quad_rand::gen_range(low, high)
}

} // verus!
