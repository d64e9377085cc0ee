use vstd::prelude::*;
use vstd::arithmetic::power2::pow2;
use vstd::arithmetic::power2::lemma_pow2_strictly_increases;
use vstd::arithmetic::power2::lemma2_to64;
use vstd::arithmetic::div_mod::lemma_basic_div;
use vstd::arithmetic::div_mod::lemma_add_mod_noop_right;
use vstd::arithmetic::div_mod::lemma_mod_add_multiples_vanish;
use vstd::arithmetic::div_mod::lemma_small_mod;
use crate::external::ct_eq_u64;
use crate::field::PrimeField;
use crate::group::Group;
use crate::group::GroupError;

verus! {

/// The order of the residue group and of its scalar field.
pub const RESIDUE_ORDER: u64 = 5;

/// A scalar of the prime field of order five: a residue class modulo five,
/// stored as its canonical representative.
#[derive(Clone, Copy, Debug, PartialEq, Eq, Hash, Structural)]
pub struct ResidueScalar {
    v: u64,
}

/// An element of the additive group of integers modulo five, the smallest
/// prime-order group with a generator distinct from the identity. It stands
/// in for a curve group wherever the abstract contracts are exercised on
/// concrete values; the generator is the residue class of one, and an
/// element's representative is the element itself.
#[derive(Clone, Copy, Debug, PartialEq, Eq, Hash, Structural)]
pub struct ResidueElement {
    v: u64,
}

impl ResidueScalar {
    /// The scalar whose canonical representative is `x` reduced modulo five.
    pub fn new(x: u64) -> (r: Self)
        ensures
            r.rep() == x as nat % 5,
            r.rep() < 5,
    {
        ResidueScalar { v: x % RESIDUE_ORDER }
    }

    /// The canonical representative of this scalar, as a machine word.
    pub fn value(&self) -> (r: u64)
        ensures
            r as nat == self.rep(),
    {
        self.v
    }
}

impl ResidueElement {
    /// The canonical representative of this element, as a machine word.
    pub fn value(&self) -> (r: u64)
        ensures
            r as nat == self.rep(),
    {
        self.v
    }
}

impl PrimeField for ResidueScalar {
    open spec fn modulus() -> nat {
        5
    }

    closed spec fn rep(&self) -> nat {
        self.v as nat
    }

    proof fn modulus_at_least_two() {
    }

    fn zero() -> (r: Self) {
        ResidueScalar { v: 0 }
    }

    fn one() -> (r: Self) {
        ResidueScalar { v: 1 }
    }

    fn add(self, other: Self) -> (r: Self) {
        ResidueScalar { v: (self.v + other.v) % RESIDUE_ORDER }
    }

    fn mul(self, other: Self) -> (r: Self) {
        proof {
            assert(self.v * other.v < 25) by (nonlinear_arith)
                requires
                    self.v < 5,
                    other.v < 5,
            ;
        }
        ResidueScalar { v: (self.v * other.v) % RESIDUE_ORDER }
    }

    fn num_bits(&self) -> (n: usize) {
        proof {
            lemma2_to64();
        }
        3
    }

    fn bit(&self, i: usize) -> (b: bool) {
        proof {
            lemma2_to64();
        }
        if i == 0 {
            self.v % 2 == 1
        } else if i == 1 {
            (self.v / 2) % 2 == 1
        } else if i == 2 {
            (self.v / 4) % 2 == 1
        } else {
            proof {
                if i > 3 {
                    lemma_pow2_strictly_increases(3, i as nat);
                }
                lemma_basic_div(self.v as int, pow2(i as nat) as int);
            }
            false
        }
    }
}

impl Group for ResidueElement {
    type Scalar = ResidueScalar;

    open spec fn order() -> nat {
        5
    }

    closed spec fn rep(&self) -> nat {
        self.v as nat
    }

    open spec fn spec_enc(n: nat) -> Seq<u8> {
        seq![n as u8]
    }

    proof fn order_at_least_two() {
    }

    proof fn enc_injective(n1: nat, n2: nat) {
        assert(Self::spec_enc(n1)[0] == n1 as u8);
        assert(Self::spec_enc(n2)[0] == n2 as u8);
        assert((n1 as u8) as nat == n1);
        assert((n2 as u8) as nat == n2);
    }

    proof fn scalar_field_matches() {
    }

    fn zero() -> (r: Self) {
        ResidueElement { v: 0 }
    }

    fn is_zero(&self) -> (r: bool) {
        ct_eq_u64(self.v, 0)
    }

    fn generator() -> (r: Self) {
        ResidueElement { v: 1 }
    }

    fn add(self, other: Self) -> (r: Self) {
        ResidueElement { v: (self.v + other.v) % RESIDUE_ORDER }
    }

    fn sub(self, other: Self) -> (r: Self) {
        let r = ResidueElement { v: (self.v + RESIDUE_ORDER - other.v) % RESIDUE_ORDER };
        proof {
            lemma_add_mod_noop_right(
                other.v as int,
                self.v + RESIDUE_ORDER - other.v,
                RESIDUE_ORDER as int,
            );
            lemma_mod_add_multiples_vanish(self.v as int, RESIDUE_ORDER as int);
            lemma_small_mod(self.v as nat, RESIDUE_ORDER as nat);
        }
        r
    }

    fn neg(self) -> (r: Self) {
        let r = ResidueElement { v: (RESIDUE_ORDER - self.v) % RESIDUE_ORDER };
        proof {
            lemma_add_mod_noop_right(
                self.v as int,
                RESIDUE_ORDER - self.v,
                RESIDUE_ORDER as int,
            );
        }
        r
    }

    fn double(&self) -> (r: Self) {
        ResidueElement { v: (self.v + self.v) % RESIDUE_ORDER }
    }

    fn eq_element(&self, other: &Self) -> (r: bool) {
        ct_eq_u64(self.v, other.v)
    }

    fn from_uniform_u64(x: u64) -> (r: Self) {
        ResidueElement { v: x % RESIDUE_ORDER }
    }

    fn serialize(&self) -> (r: Vec<u8>) {
        let mut out: Vec<u8> = Vec::new();
        out.push(self.v as u8);
        proof {
            assert(out@ =~= Self::spec_enc(self.rep()));
        }
        out
    }

    fn deserialize(bytes: &[u8]) -> (r: Result<Self, GroupError>) {
        if bytes.len() == 1 {
            let b0: u8 = bytes[0];
            if b0 < 5 {
                let e = ResidueElement { v: b0 as u64 };
                proof {
                    assert(Self::spec_enc(e.rep()) =~= bytes@);
                }
                Ok(e)
            } else {
                proof {
                    assert forall|n: nat| n < Self::order() implies Self::spec_enc(n)
                        != bytes@ by {
                        if Self::spec_enc(n) == bytes@ {
                            assert(Self::spec_enc(n)[0] == bytes@[0]);
                            assert((n as u8) as nat == n);
                        }
                    }
                }
                Err(GroupError::InvalidEncoding)
            }
        } else {
            proof {
                assert forall|n: nat| n < Self::order() implies Self::spec_enc(n)
                    != bytes@ by {
                    assert(Self::spec_enc(n).len() == 1);
                }
            }
            Err(GroupError::InvalidEncoding)
        }
    }
}

} // verus!
