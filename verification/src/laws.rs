use vstd::prelude::*;
use vstd::arithmetic::div_mod::lemma_add_mod_noop;
use vstd::arithmetic::div_mod::lemma_add_mod_noop_right;
use vstd::arithmetic::div_mod::lemma_mod_add_multiples_vanish;
use vstd::arithmetic::div_mod::lemma_mod_equivalence;
use vstd::arithmetic::div_mod::lemma_mul_mod_noop_left;
use vstd::arithmetic::div_mod::lemma_small_mod;
use crate::field::PrimeField;
use crate::group::Group;

verus! {

/// Associativity of the group law: adding three elements in either
/// grouping yields the same representative, so `(a + b) + c == a + (b + c)`.
pub proof fn lemma_add_associative<G: Group>(a: G, b: G, c: G)
    requires
        a.rep() < G::order(),
        b.rep() < G::order(),
        c.rep() < G::order(),
    ensures
        ((a.rep() + b.rep()) % G::order() + c.rep()) % G::order() == (a.rep() + (b.rep()
            + c.rep()) % G::order()) % G::order(),
{
    G::order_at_least_two();
    let m: int = G::order() as int;
    lemma_add_mod_noop_right(c.rep() as int, (a.rep() + b.rep()) as int, m);
    lemma_add_mod_noop_right(a.rep() as int, (b.rep() + c.rep()) as int, m);
}

/// Commutativity of the group law: `a + b == b + a`.
pub proof fn lemma_add_commutative<G: Group>(a: G, b: G)
    ensures
        (a.rep() + b.rep()) % G::order() == (b.rep() + a.rep()) % G::order(),
{
}

/// The identity is neutral: `a + identity() == a`.
pub proof fn lemma_add_identity<G: Group>(a: G)
    requires
        a.rep() < G::order(),
    ensures
        (a.rep() + 0) % G::order() == a.rep(),
{
    G::order_at_least_two();
    lemma_small_mod(a.rep(), G::order());
}

/// The group law is cancellative: adding the same representative `b` to
/// two representatives below the modulus cannot make them collide, so sums
/// and inverses are pinned uniquely by their defining equations.
pub proof fn lemma_mod_add_cancel(w1: nat, w2: nat, b: nat, m: nat)
    requires
        m >= 2,
        w1 < m,
        w2 < m,
        (w1 + b) % m == (w2 + b) % m,
    ensures
        w1 == w2,
{
    lemma_mod_equivalence((w1 + b) as int, (w2 + b) as int, m as int);
    let d: int = w1 as int - w2 as int;
    assert((w1 + b) - (w2 + b) == d);
    if d >= 0 {
        lemma_small_mod(d as nat, m);
    } else {
        lemma_mod_add_multiples_vanish(d, m as int);
        lemma_small_mod((d + m) as nat, m);
    }
}

/// The additive inverse is unique: two elements that each cancel `a` to
/// the identity carry the same representative, so `-a` is well defined
/// and `a + (-a) == identity()` names one single element.
pub proof fn lemma_neg_unique<G: Group>(a: G, w1: G, w2: G)
    requires
        a.rep() < G::order(),
        w1.rep() < G::order(),
        w2.rep() < G::order(),
        (a.rep() + w1.rep()) % G::order() == 0,
        (a.rep() + w2.rep()) % G::order() == 0,
    ensures
        w1.rep() == w2.rep(),
{
    G::order_at_least_two();
    lemma_mod_add_cancel(w1.rep(), w2.rep(), a.rep(), G::order());
}

/// Scalar multiplication is a homomorphism from the scalar field's
/// addition to the group law: `scalar_mul(a, s + t) ==
/// scalar_mul(a, s) + scalar_mul(a, t)`.
pub proof fn lemma_scalar_mul_homomorphic<G: Group>(a: G, s: G::Scalar, t: G::Scalar)
    requires
        a.rep() < G::order(),
        s.rep() < <G::Scalar as PrimeField>::modulus(),
        t.rep() < <G::Scalar as PrimeField>::modulus(),
    ensures
        (((s.rep() + t.rep()) % <G::Scalar as PrimeField>::modulus()) * a.rep()) % G::order() == (
        (s.rep() * a.rep()) % G::order() + (t.rep() * a.rep()) % G::order()) % G::order(),
{
    G::order_at_least_two();
    G::scalar_field_matches();
    let m: int = G::order() as int;
    lemma_mul_mod_noop_left((s.rep() + t.rep()) as int, a.rep() as int, m);
    assert((s.rep() + t.rep()) * a.rep() == s.rep() * a.rep() + t.rep() * a.rep())
        by (nonlinear_arith);
    lemma_add_mod_noop((s.rep() * a.rep()) as int, (t.rep() * a.rep()) as int, m);
}

/// The zero scalar sends every element to the identity:
/// `scalar_mul(a, 0) == identity()`.
pub proof fn lemma_scalar_mul_zero<G: Group>(a: G)
    requires
        a.rep() < G::order(),
    ensures
        (0 * a.rep()) % G::order() == 0,
{
    G::order_at_least_two();
    lemma_small_mod(0, G::order());
}

/// The one scalar fixes every element: `scalar_mul(a, 1) == a`.
pub proof fn lemma_scalar_mul_one<G: Group>(a: G)
    requires
        a.rep() < G::order(),
    ensures
        (1 * a.rep()) % G::order() == a.rep(),
{
    G::order_at_least_two();
    lemma_small_mod(a.rep(), G::order());
}

/// Serialization round trip: whatever element deserialization returns for
/// `a`'s encoding is `a` itself, because canonical encodings pin their
/// element. Together with `Group::deserialize`'s guarantee of success on
/// canonical bytes this is `deserialize(serialize(a)) == Ok(a)`.
pub proof fn lemma_deserialize_serialize<G: Group>(a: G, d: G)
    requires
        a.rep() < G::order(),
        d.rep() < G::order(),
        G::spec_enc(d.rep()) == G::spec_enc(a.rep()),
    ensures
        d.rep() == a.rep(),
{
    G::enc_injective(d.rep(), a.rep());
}

} // verus!
