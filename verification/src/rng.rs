//! The random source used for weight initialization and data splitting.
//!
//! The generator is rand 0.5's `XorShiftRng`, an opaque outside type. Nothing
//! is promised of a drawn value beyond what rand documents of every outcome;
//! the callers state what holds whatever came back.

use vstd::prelude::*;

verus! {

#[verifier::external_type_specification]
#[verifier::external_body]
pub struct ExXorShiftRng(rand::prng::XorShiftRng);

/// The bit patterns of the double-precision values that are neither negative
/// nor NaN: sign bit clear, and not an all-ones exponent beside a nonzero
/// mantissa.
pub open spec fn f64_nonneg_bits(b: u64) -> bool {
    b >> 63 == 0 && !((b >> 52) & 0x7FF == 0x7FF && (b & 0x000F_FFFF_FFFF_FFFF) != 0)
}

/// Relies on rand 0.5's `Normal` distribution: one double-precision Gaussian
/// draw with the given mean and standard deviation, both passed as bit
/// patterns. `Normal::new` panics when the standard deviation is negative or
/// NaN, which the precondition rules out. Nothing is promised of the result:
/// it depends on the generator's state.
#[verifier::external_body]
pub fn sample_normal(rng: &mut rand::prng::XorShiftRng, mean: u64, std_dev: u64) -> (r: u64)
    requires
        f64_nonneg_bits(std_dev),
{
    let dist = rand::distributions::Normal::new(bytemuck::cast(mean), bytemuck::cast(std_dev));
    bytemuck::cast(rand::Rng::sample(rng, dist))
}

/// Relies on rand 0.5's `seq::sample_indices`: `amount` distinct indices
/// drawn from `0..length` without replacement, in random order. It panics
/// when `amount > length`, which the precondition rules out. Which indices
/// come back depends on the generator's state.
#[verifier::external_body]
pub fn sample_indices(rng: &mut rand::prng::XorShiftRng, length: usize, amount: usize) -> (r: Vec<usize>)
    requires
        amount <= length,
    ensures
        r@.len() == amount,
        forall|i: int| 0 <= i < r@.len() ==> r@[i] < length,
        forall|i: int, j: int| 0 <= i < j < r@.len() ==> r@[i] != r@[j],
{
    rand::seq::sample_indices(rng, length, amount)
}

} // verus!
