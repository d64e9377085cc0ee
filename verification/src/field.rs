use vstd::prelude::*;
use vstd::arithmetic::power2::pow2;

verus! {

/// Bit `i` of the natural number `n`, little-endian: the coefficient of
/// `pow2(i)` in the binary expansion of `n`.
pub open spec fn nth_bit(n: nat, i: nat) -> bool {
    (n / pow2(i)) % 2 == 1
}

/// The capabilities the group layer needs from its scalar field: the prime
/// field of the group's order. A scalar is identified by its canonical
/// representative `rep()`, an integer below `modulus()`; field operations
/// are arithmetic on representatives modulo `modulus()`, and the canonical
/// big-integer conversion is exposed bit by bit so that scalar
/// multiplication can walk the binary expansion of a scalar.
pub trait PrimeField: Sized + Copy + PartialEq + Eq + core::hash::Hash + core::fmt::Debug {
    /// The field's order (a prime in any honest instance; the contracts
    /// here use only that it is at least two).
    spec fn modulus() -> nat;

    /// The canonical representative of this scalar, in `[0, modulus())`.
    spec fn rep(&self) -> nat;

    /// The field holds at least the two constants zero and one.
    proof fn modulus_at_least_two()
        ensures
            Self::modulus() >= 2,
    ;

    /// The additive identity of the field.
    fn zero() -> (r: Self)
        ensures
            r.rep() == 0,
    ;

    /// The multiplicative identity of the field.
    fn one() -> (r: Self)
        ensures
            r.rep() == 1,
    ;

    /// Field addition: representatives add modulo the field's order.
    fn add(self, other: Self) -> (r: Self)
        requires
            self.rep() < Self::modulus(),
            other.rep() < Self::modulus(),
        ensures
            r.rep() == (self.rep() + other.rep()) % Self::modulus(),
            r.rep() < Self::modulus(),
    ;

    /// Field multiplication: representatives multiply modulo the field's
    /// order.
    fn mul(self, other: Self) -> (r: Self)
        requires
            self.rep() < Self::modulus(),
            other.rep() < Self::modulus(),
        ensures
            r.rep() == (self.rep() * other.rep()) % Self::modulus(),
            r.rep() < Self::modulus(),
    ;

    /// A bound on the bit length of the canonical representative: every bit
    /// of `rep()` at position `num_bits()` or above is clear.
    fn num_bits(&self) -> (n: usize)
        requires
            self.rep() < Self::modulus(),
        ensures
            self.rep() < pow2(n as nat),
    ;

    /// Bit `i` of the canonical representative, little-endian.
    fn bit(&self, i: usize) -> (b: bool)
        requires
            self.rep() < Self::modulus(),
        ensures
            b == nth_bit(self.rep(), i as nat),
    ;
}

} // verus!
