use vstd::prelude::*;
use subtle::ConstantTimeEq;

verus! {

/// Relies on subtle's `ConstantTimeEq` for `u64` and its `Choice`-to-`bool`
/// conversion: `ct_eq` compares the two words without branching on their
/// value and yields a `Choice` that converts to `true` exactly when they
/// are equal.
#[verifier::external_body]
pub(crate) fn ct_eq_u64(a: u64, b: u64) -> (r: bool)
    ensures
        r == (a == b),
{
    bool::from(a.ct_eq(&b))
}

/// Relies on rand_core's `RngCore::next_u64` to draw the next word from the
/// caller's generator; nothing is assumed about the word that comes back.
#[verifier::external_body]
pub(crate) fn draw_u64<R: rand_core::RngCore>(rng: &mut R) -> u64 {
    rng.next_u64()
}

} // verus!
