//! The one source of chance: the process-wide pseudo-random generator.
use vstd::prelude::*;

verus! {

/// Draws a pseudo-random integer from `macroquad::rand::gen_range`, which
/// takes the next output of the process-wide generator as a fraction of the
/// way from `low` to `high` and rounds toward zero: the draw lies between the
/// two, whatever the state of the generator.
#[verifier::external_body]
pub(crate) fn gen_range(low: i32, high: i32) -> (r: i32)
    ensures
        low <= r <= high || high <= r <= low,
{
    macroquad::rand::gen_range(low, high)
}

} // verus!
