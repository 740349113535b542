//! The one place where the library draws random numbers.

use vstd::prelude::*;
use rand::Rng;

verus! {

/// Calls `rand::thread_rng().gen_range(low..high)`, which draws a number
/// from the thread's generator.
///
/// Taken on trust from `rand`: the number drawn lies in the half-open range,
/// at least `low` and below `high`. `gen_range` panics on an empty range,
/// which `requires` leaves out; `thread_rng` panics where the operating
/// system cannot seed the generator. Nothing is said of which number of the
/// range comes: two calls on the same bounds may differ.
#[verifier::external_body]
pub(crate) fn draw_in_range(low: i32, high: i32) -> (n: i32)
    requires
        low < high,
    ensures
        low <= n < high,
{
    rand::thread_rng().gen_range(low..high)
}

} // verus!
