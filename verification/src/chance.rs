//! What the library takes from outside: random places and random names.
//! Nothing here is proved; each contract says what the crate behind it does.
use rand::distributions::{Distribution, Uniform};
use rand::thread_rng;
use uuid::Uuid;
use vstd::prelude::*;

verus! {

/// A whole number drawn from `0 .. bound` by `rand`: the distribution
/// `Uniform::new(0, bound)`, sampled once with the generator `thread_rng()`.
/// `Uniform::new` panics on an empty range, hence the `requires`; its
/// sampler returns the lower end plus a value below the width of the range.
#[verifier::external_body]
pub(crate) fn uniform_below(bound: usize) -> (r: usize)
    requires
        bound > 0,
    ensures
        r < bound,
{
    Uniform::new(0, bound).sample(&mut thread_rng())
}

/// The number of a fresh random identifier: `Uuid::new_v4()`, read with
/// `Uuid::as_u128`.  Of its 128 bits `new_v4` fixes six: the version
/// (binary 0100 from bit 76 up) and the variant (binary 10 from bit 62 up).
#[verifier::external_body]
pub(crate) fn fresh_id() -> (id: u128)
    ensures
        (id >> 76) & 0xf == 4,
        (id >> 62) & 0x3 == 2,
{
    Uuid::new_v4().as_u128()
}

} // verus!
