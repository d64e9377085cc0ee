use vstd::prelude::*;
use vstd::arithmetic::power2::pow2;
use vstd::arithmetic::power2::lemma_pow2_adds;
use vstd::arithmetic::power2::lemma_pow2_pos;
use vstd::arithmetic::power2::lemma2_to64;
use vstd::arithmetic::div_mod::lemma_mod_breakdown;
use vstd::arithmetic::div_mod::lemma_add_mod_noop;
use vstd::arithmetic::div_mod::lemma_small_mod;
use crate::field::PrimeField;
use crate::field::nth_bit;

verus! {

/// The one failure the group layer can report: bytes handed to
/// `Group::deserialize` do not carry the canonical encoding of any element
/// (wrong length, off-group value, or a non-canonical form of a valid
/// element).
#[derive(Clone, Copy, Debug, PartialEq, Eq, Structural)]
pub enum GroupError {
    InvalidEncoding,
}

/// The algebraic contract of a prime-order additive group.
///
/// Every element of such a group is a scalar multiple of the generator, so
/// an element is specified by its abstract representative `rep()`: the
/// discrete logarithm to the generator, an integer in `[0, order())`. All
/// operation contracts are arithmetic on representatives modulo `order()`;
/// two elements are the same group element exactly when their
/// representatives agree, however the implementation lays out its
/// coordinates.
pub trait Group: Sized + Copy + PartialEq + Eq + core::hash::Hash + core::fmt::Debug {
    /// The scalar field acting on the group: the prime field whose order is
    /// the group's order (see `scalar_field_matches`).
    type Scalar: PrimeField;

    /// The number of elements of the group.
    spec fn order() -> nat;

    /// The abstract representative of this element: the unique `n` below
    /// `order()` with `self == generator * n`.
    spec fn rep(&self) -> nat;

    /// The canonical byte encoding of the element whose representative is
    /// `n`.
    spec fn spec_enc(n: nat) -> Seq<u8>;

    /// A group with a generator distinct from the identity has at least two
    /// elements.
    proof fn order_at_least_two()
        ensures
            Self::order() >= 2,
    ;

    /// Canonical encodings of distinct elements differ, so a decoded element
    /// is pinned by its encoding.
    proof fn enc_injective(n1: nat, n2: nat)
        requires
            n1 < Self::order(),
            n2 < Self::order(),
            Self::spec_enc(n1) == Self::spec_enc(n2),
        ensures
            n1 == n2,
    ;

    /// The scalar field is exactly the prime field of the group's order.
    proof fn scalar_field_matches()
        ensures
            <Self::Scalar as PrimeField>::modulus() == Self::order(),
    ;

    /// The additive identity.
    fn zero() -> (r: Self)
        ensures
            r.rep() == 0,
    ;

    /// Whether this element is the additive identity, decided without
    /// branching on the element's value.
    fn is_zero(&self) -> (r: bool)
        requires
            self.rep() < Self::order(),
        ensures
            r == (self.rep() == 0),
    ;

    /// The fixed generator whose multiples make up the whole group.
    fn generator() -> (r: Self)
        ensures
            r.rep() == 1,
    ;

    /// The group law: representatives add modulo the group's order.
    fn add(self, other: Self) -> (r: Self)
        requires
            self.rep() < Self::order(),
            other.rep() < Self::order(),
        ensures
            r.rep() == (self.rep() + other.rep()) % Self::order(),
            r.rep() < Self::order(),
    ;

    /// Group subtraction: the result is the unique element that added to
    /// `other` gives back `self`.
    fn sub(self, other: Self) -> (r: Self)
        requires
            self.rep() < Self::order(),
            other.rep() < Self::order(),
        ensures
            r.rep() < Self::order(),
            (r.rep() + other.rep()) % Self::order() == self.rep(),
    ;

    /// The additive inverse: the unique element that added to `self` gives
    /// the identity.
    fn neg(self) -> (r: Self)
        requires
            self.rep() < Self::order(),
        ensures
            r.rep() < Self::order(),
            (self.rep() + r.rep()) % Self::order() == 0,
    ;

    /// `self + self`, offered as its own operation because doubling has a
    /// cheaper formula than general addition on curve representations.
    fn double(&self) -> (r: Self)
        requires
            self.rep() < Self::order(),
        ensures
            r.rep() == (self.rep() + self.rep()) % Self::order(),
            r.rep() < Self::order(),
    ;

    /// Replaces `self` with `self + self`.
    fn double_in_place(&mut self)
        requires
            old(self).rep() < Self::order(),
        ensures
            final(self).rep() == (old(self).rep() + old(self).rep()) % Self::order(),
            final(self).rep() < Self::order(),
    {
        *self = self.double();
    }

    /// Whether the two arguments are the same group element, irrespective of
    /// how each one's coordinates are laid out.
    fn eq_element(&self, other: &Self) -> (r: bool)
        requires
            self.rep() < Self::order(),
            other.rep() < Self::order(),
        ensures
            r == (self.rep() == other.rep()),
    ;

    /// Maps a drawn machine word onto the group by reducing it modulo the
    /// group's order; the sampling layer hands uniform words to this.
    fn from_uniform_u64(x: u64) -> (r: Self)
        ensures
            r.rep() == x as nat % Self::order(),
            r.rep() < Self::order(),
    ;

    /// The canonical byte encoding of this element.
    fn serialize(&self) -> (r: Vec<u8>)
        requires
            self.rep() < Self::order(),
        ensures
            r@ == Self::spec_enc(self.rep()),
    ;

    /// Decodes a canonical byte encoding. Succeeds exactly on the canonical
    /// encodings of the group's elements, and then returns the one element
    /// so encoded; every other byte string is rejected as `InvalidEncoding`,
    /// so alternate spellings of a valid element cannot pass.
    fn deserialize(bytes: &[u8]) -> (r: Result<Self, GroupError>)
        ensures
            match r {
                Ok(e) => e.rep() < Self::order() && Self::spec_enc(e.rep()) == bytes@,
                Err(err) => err == GroupError::InvalidEncoding && forall|n: nat|
                    n < Self::order() ==> Self::spec_enc(n) != bytes@,
            },
    ;

    /// Scalar multiplication: `self` added to itself `scalar` times, so the
    /// result's representative is the product of the scalar and `self`'s
    /// representative modulo the group's order. The provided body walks the
    /// scalar's binary expansion, doubling and conditionally adding, rather
    /// than adding naively.
    fn mul(&self, scalar: &Self::Scalar) -> (r: Self)
        requires
            self.rep() < Self::order(),
            scalar.rep() < <Self::Scalar as PrimeField>::modulus(),
        ensures
            r.rep() == (scalar.rep() * self.rep()) % Self::order(),
            r.rep() < Self::order(),
    {
        let n: usize = scalar.num_bits();
        let mut acc = Self::zero();
        let mut base = *self;
        proof {
            Self::order_at_least_two();
            lemma2_to64();
            lemma_small_mod(0nat, Self::order());
            lemma_small_mod(self.rep(), Self::order());
            assert(scalar.rep() % pow2(0) == 0);
        }
        let mut i: usize = 0;
        while i < n
            invariant
                i <= n,
                Self::order() >= 2,
                self.rep() < Self::order(),
                scalar.rep() < pow2(n as nat),
                scalar.rep() < <Self::Scalar as PrimeField>::modulus(),
                acc.rep() < Self::order(),
                base.rep() < Self::order(),
                acc.rep() == ((scalar.rep() % pow2(i as nat)) * self.rep()) % Self::order(),
                base.rep() == (pow2(i as nat) * self.rep()) % Self::order(),
            decreases n - i,
        {
            proof {
                lemma_double_and_add_step(
                    self.rep(),
                    scalar.rep(),
                    i as nat,
                    Self::order(),
                    acc.rep(),
                    base.rep(),
                );
            }
            if scalar.bit(i) {
                acc = acc.add(base);
            }
            base = base.double();
            i = i + 1;
        }
        proof {
            lemma_pow2_pos(n as nat);
            lemma_small_mod(scalar.rep(), pow2(n as nat));
        }
        acc
    }
}

/// One step of double-and-add: folding the next bit of the scalar into the
/// accumulator and doubling the running power of the base preserves the
/// partial-product invariant.
proof fn lemma_double_and_add_step(x: nat, s: nat, i: nat, m: nat, acc: nat, b: nat)
    requires
        m >= 2,
        acc == ((s % pow2(i)) * x) % m,
        b == (pow2(i) * x) % m,
    ensures
        nth_bit(s, i) ==> (acc + b) % m == ((s % pow2(i + 1)) * x) % m,
        !nth_bit(s, i) ==> acc == ((s % pow2(i + 1)) * x) % m,
        (b + b) % m == (pow2(i + 1) * x) % m,
{
    lemma_pow2_adds(i, 1);
    lemma2_to64();
    lemma_pow2_pos(i);
    assert(pow2(i + 1) == pow2(i) * 2);
    lemma_mod_breakdown(s as int, pow2(i) as int, 2);
    assert(s % pow2(i + 1) == pow2(i) * ((s / pow2(i)) % 2) + s % pow2(i));
    let low: nat = s % pow2(i);
    if nth_bit(s, i) {
        assert((s / pow2(i)) % 2 == 1);
        assert(s % pow2(i + 1) == pow2(i) + low);
        assert((pow2(i) + low) * x == low * x + pow2(i) * x) by (nonlinear_arith);
        lemma_add_mod_noop((low * x) as int, (pow2(i) * x) as int, m as int);
        assert((acc + b) % m == (low * x + pow2(i) * x) % m);
    } else {
        assert((s / pow2(i)) % 2 == 0);
        assert(s % pow2(i + 1) == low);
    }
    assert(pow2(i + 1) * x == pow2(i) * x + pow2(i) * x) by (nonlinear_arith)
        requires pow2(i + 1) == pow2(i) * 2;
    lemma_add_mod_noop((pow2(i) * x) as int, (pow2(i) * x) as int, m as int);
}

} // verus!
