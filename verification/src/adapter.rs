use vstd::prelude::*;
use crate::external::draw_u64;
use crate::field::PrimeField;
use crate::group::Group;
use crate::group::GroupError;
use crate::laws::lemma_mod_add_cancel;

verus! {

/// The representatives of a sequence of wrapped elements.
pub open spec fn reps<G: Group>(s: Seq<ArkworksGroup<G>>) -> Seq<nat> {
    s.map_values(|e: ArkworksGroup<G>| e.rep())
}

/// The left fold of a sequence of representatives under addition modulo
/// `m`: the representative a sum of so many elements must carry.
pub open spec fn sum_mod(s: Seq<nat>, m: nat) -> nat
    decreases s.len(),
{
    if s.len() == 0 {
        0
    } else {
        (sum_mod(s.drop_last(), m) + s.last()) % m
    }
}

/// An adapter that takes exclusive ownership of one element of a group
/// written against the `Group` capability and re-exposes it under the
/// other group vocabulary in circulation (`identity` / `generator` /
/// `is_identity` / `double` / `random`, with sums and scalar action).
///
/// Every operation is a plain call-through to the wrapped element's own
/// operation — the wrapper re-derives nothing, adds no invariant of its
/// own, and introduces no failure mode — so each contract below restates,
/// over the wrapped representative, exactly the contract of the operation
/// it delegates to. The scalar type bound here is the wrapped group's own
/// scalar field, never the wrapper itself.
#[derive(Clone, Copy, Debug, PartialEq, Eq)]
pub struct ArkworksGroup<G: Group>(G);

impl<G: Group> ArkworksGroup<G> {
    /// The representative of the wrapped element.
    pub closed spec fn rep(&self) -> nat {
        self.0.rep()
    }

    /// Wraps one element; constructing the adapter checks nothing beyond
    /// what the wrapped type already guarantees.
    pub fn wrap(g: G) -> (r: Self)
        ensures
            r.rep() == g.rep(),
    {
        ArkworksGroup(g)
    }

    /// Hands the wrapped element back.
    pub fn into_inner(self) -> (g: G)
        ensures
            g.rep() == self.rep(),
    {
        self.0
    }

    /// A group element drawn from the caller's generator.
    pub fn random<R: rand_core::RngCore>(rng: &mut R) -> (r: Self)
        ensures
            r.rep() < G::order(),
    {
        let x: u64 = draw_u64(rng);
        ArkworksGroup(G::from_uniform_u64(x))
    }

    /// The additive identity, also known as the neutral element.
    pub fn identity() -> (r: Self)
        ensures
            r.rep() == 0,
    {
        ArkworksGroup(G::zero())
    }

    /// The fixed generator of the prime-order group.
    pub fn generator() -> (r: Self)
        ensures
            r.rep() == 1,
    {
        ArkworksGroup(G::generator())
    }

    /// Whether this element is the identity, by the wrapped element's own
    /// constant-time check.
    pub fn is_identity(&self) -> (r: bool)
        requires
            self.rep() < G::order(),
        ensures
            r == (self.rep() == 0),
    {
        self.0.is_zero()
    }

    /// Doubles this element.
    pub fn double(&self) -> (r: Self)
        requires
            self.rep() < G::order(),
        ensures
            r.rep() == (self.rep() + self.rep()) % G::order(),
            r.rep() < G::order(),
    {
        ArkworksGroup(self.0.double())
    }

    /// The group sum of the two wrapped elements.
    pub fn add(self, other: Self) -> (r: Self)
        requires
            self.rep() < G::order(),
            other.rep() < G::order(),
        ensures
            r.rep() == (self.rep() + other.rep()) % G::order(),
            r.rep() < G::order(),
    {
        ArkworksGroup(self.0.add(other.0))
    }

    /// Replaces this element with the sum of itself and `other`.
    pub fn add_assign(&mut self, other: Self)
        requires
            old(self).rep() < G::order(),
            other.rep() < G::order(),
        ensures
            final(self).rep() == (old(self).rep() + other.rep()) % G::order(),
            final(self).rep() < G::order(),
    {
        *self = ArkworksGroup(self.0.add(other.0));
    }

    /// The group difference of the two wrapped elements.
    pub fn sub(self, other: Self) -> (r: Self)
        requires
            self.rep() < G::order(),
            other.rep() < G::order(),
        ensures
            r.rep() < G::order(),
            (r.rep() + other.rep()) % G::order() == self.rep(),
    {
        ArkworksGroup(self.0.sub(other.0))
    }

    /// Replaces this element with the difference of itself and `other`.
    pub fn sub_assign(&mut self, other: Self)
        requires
            old(self).rep() < G::order(),
            other.rep() < G::order(),
        ensures
            final(self).rep() < G::order(),
            (final(self).rep() + other.rep()) % G::order() == old(self).rep(),
    {
        *self = ArkworksGroup(self.0.sub(other.0));
    }

    /// The additive inverse of this element.
    pub fn neg(self) -> (r: Self)
        requires
            self.rep() < G::order(),
        ensures
            r.rep() < G::order(),
            (self.rep() + r.rep()) % G::order() == 0,
    {
        ArkworksGroup(self.0.neg())
    }

    /// The scalar action: the wrapped group's own scalar field acts on the
    /// wrapped element.
    pub fn mul(&self, scalar: &G::Scalar) -> (r: Self)
        requires
            self.rep() < G::order(),
            scalar.rep() < <G::Scalar as PrimeField>::modulus(),
        ensures
            r.rep() == (scalar.rep() * self.rep()) % G::order(),
            r.rep() < G::order(),
    {
        ArkworksGroup(self.0.mul(scalar))
    }

    /// Replaces this element with `scalar` times itself.
    pub fn mul_assign(&mut self, scalar: &G::Scalar)
        requires
            old(self).rep() < G::order(),
            scalar.rep() < <G::Scalar as PrimeField>::modulus(),
        ensures
            final(self).rep() == (scalar.rep() * old(self).rep()) % G::order(),
            final(self).rep() < G::order(),
    {
        *self = ArkworksGroup(self.0.mul(scalar));
    }

    /// Whether the two wrapped values are the same group element.
    pub fn eq_element(&self, other: &Self) -> (r: bool)
        requires
            self.rep() < G::order(),
            other.rep() < G::order(),
        ensures
            r == (self.rep() == other.rep()),
    {
        self.0.eq_element(&other.0)
    }

    /// The canonical encoding of the wrapped element.
    pub fn serialize(&self) -> (r: Vec<u8>)
        requires
            self.rep() < G::order(),
        ensures
            r@ == G::spec_enc(self.rep()),
    {
        self.0.serialize()
    }

    /// Decodes a canonical encoding and wraps the element it names;
    /// failures are inherited verbatim from the wrapped type.
    pub fn deserialize(bytes: &[u8]) -> (r: Result<Self, GroupError>)
        ensures
            match r {
                Ok(e) => e.rep() < G::order() && G::spec_enc(e.rep()) == bytes@,
                Err(err) => err == GroupError::InvalidEncoding && forall|n: nat|
                    n < G::order() ==> G::spec_enc(n) != bytes@,
            },
    {
        match G::deserialize(bytes) {
            Ok(g) => Ok(ArkworksGroup(g)),
            Err(e) => Err(e),
        }
    }

    /// Interface transparency, end to end: each operation of the adapted
    /// vocabulary lands on the same group element as the wrapped
    /// vocabulary's counterpart applied directly, so wrapping and
    /// unwrapping commute with every listed operation. The result is
    /// proved `true` for every input.
    pub fn transparent(x: G, y: G, s: &G::Scalar) -> (r: bool)
        requires
            x.rep() < G::order(),
            y.rep() < G::order(),
            s.rep() < <G::Scalar as PrimeField>::modulus(),
        ensures
            r,
    {
        proof {
            G::order_at_least_two();
        }
        let identity_agrees = Self::identity().into_inner().eq_element(&G::zero());
        let generator_agrees = Self::generator().into_inner().eq_element(&G::generator());
        let is_identity_agrees = Self::wrap(x).is_identity() == x.is_zero();
        let double_agrees = Self::wrap(x).double().into_inner().eq_element(&x.double());
        let add_agrees = Self::wrap(x).add(Self::wrap(y)).into_inner().eq_element(&x.add(y));
        let sub_direct = x.sub(y);
        let sub_through = Self::wrap(x).sub(Self::wrap(y)).into_inner();
        proof {
            lemma_mod_add_cancel(sub_through.rep(), sub_direct.rep(), y.rep(), G::order());
        }
        let sub_agrees = sub_through.eq_element(&sub_direct);
        let neg_direct = x.neg();
        let neg_through = Self::wrap(x).neg().into_inner();
        proof {
            lemma_mod_add_cancel(neg_through.rep(), neg_direct.rep(), x.rep(), G::order());
        }
        let neg_agrees = neg_through.eq_element(&neg_direct);
        let mul_agrees = Self::wrap(x).mul(s).into_inner().eq_element(&x.mul(s));
        identity_agrees && generator_agrees && is_identity_agrees && double_agrees
            && add_agrees && sub_agrees && neg_agrees && mul_agrees
    }

    /// The sum of a sequence of wrapped elements, folded left to right;
    /// an empty sequence sums to the identity.
    pub fn sum(elems: &Vec<ArkworksGroup<G>>) -> (r: Self)
        requires
            forall|j: int| 0 <= j < elems@.len() ==> (#[trigger] elems@[j]).rep() < G::order(),
        ensures
            r.rep() == sum_mod(reps(elems@), G::order()),
            r.rep() < G::order(),
    {
        let mut acc = Self::identity();
        proof {
            G::order_at_least_two();
            assert(reps(elems@).take(0) =~= Seq::<nat>::empty());
        }
        let mut i: usize = 0;
        while i < elems.len()
            invariant
                i <= elems@.len(),
                G::order() >= 2,
                forall|j: int| 0 <= j < elems@.len() ==> (#[trigger] elems@[j]).rep()
                    < G::order(),
                acc.rep() < G::order(),
                acc.rep() == sum_mod(reps(elems@).take(i as int), G::order()),
            decreases elems@.len() - i,
        {
            let e = elems[i];
            acc = acc.add(e);
            proof {
                assert(reps(elems@).take(i as int + 1).drop_last() =~= reps(elems@).take(
                    i as int,
                ));
                assert(reps(elems@).take(i as int + 1).last() == elems@[i as int].rep());
            }
            i = i + 1;
        }
        proof {
            assert(reps(elems@).take(elems@.len() as int) =~= reps(elems@));
        }
        acc
    }
}

} // verus!
