use vstd::prelude::*;
use rand::{Rng, SeedableRng};
use rand::prng::XorShiftRng;

verus! {

#[verifier::external_type_specification]
#[verifier::external_body]
pub struct ExXorShiftRng(XorShiftRng);

/// Relies on rand's `SeedableRng::from_seed` for `XorShiftRng`: the generator is
/// built from sixteen copies of the seed byte (an all-zero seed is replaced by a
/// fixed one inside rand, never a panic).
#[verifier::external_body]
pub(crate) fn rng_from_seed(seed: u8) -> XorShiftRng {
    XorShiftRng::from_seed([seed; 16])
}

/// Relies on rand's `Rng::gen_range` on `u64`: a value in `[low, high)`. It
/// panics when `low >= high`, which `requires` leaves out.
#[verifier::external_body]
pub(crate) fn gen_range_u64(rng: &mut XorShiftRng, low: u64, high: u64) -> (r: u64)
    requires
        low < high,
    ensures
        low <= r < high,
{
    rng.gen_range(low, high)
}

/// Relies on rand's `Rng::choose`: None exactly when the slice is empty, else
/// one of its items.
#[verifier::external_body]
pub(crate) fn choose_id(rng: &mut XorShiftRng, ids: &Vec<usize>) -> (r: Option<usize>)
    ensures
        r.is_none() == (ids@.len() == 0),
        r matches Some(x) ==> ids@.contains(x),
{
    rng.choose(ids.as_slice()).cloned()
}

} // verus!
