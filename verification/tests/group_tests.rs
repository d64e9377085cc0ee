use group_adapter::field::PrimeField;
use group_adapter::group::Group;
use group_adapter::group::GroupError;
use group_adapter::residue::ResidueElement;
use group_adapter::residue::ResidueScalar;

fn elem(x: u64) -> ResidueElement {
    ResidueElement::from_uniform_u64(x)
}

#[test]
fn add_is_associative() {
    for a in 0..5u64 {
        for b in 0..5u64 {
            for c in 0..5u64 {
                let left = elem(a).add(elem(b)).add(elem(c));
                let right = elem(a).add(elem(b).add(elem(c)));
                assert!(left.eq_element(&right));
                assert_eq!(left, right);
            }
        }
    }
}

#[test]
fn add_is_commutative() {
    for a in 0..5u64 {
        for b in 0..5u64 {
            assert_eq!(elem(a).add(elem(b)), elem(b).add(elem(a)));
        }
    }
}

#[test]
fn identity_is_neutral() {
    for a in 0..5u64 {
        assert_eq!(elem(a).add(ResidueElement::zero()), elem(a));
    }
}

#[test]
fn negation_cancels() {
    for a in 0..5u64 {
        let sum = elem(a).add(elem(a).neg());
        assert!(sum.is_zero());
        assert_eq!(sum, ResidueElement::zero());
    }
}

#[test]
fn sub_undoes_add() {
    for a in 0..5u64 {
        for b in 0..5u64 {
            assert_eq!(elem(a).add(elem(b)).sub(elem(b)), elem(a));
        }
    }
}

#[test]
fn double_matches_self_addition() {
    for a in 0..5u64 {
        assert_eq!(elem(a).double(), elem(a).add(elem(a)));
    }
}

#[test]
fn double_in_place_matches_double() {
    for a in 0..5u64 {
        let mut m = elem(a);
        m.double_in_place();
        assert_eq!(m, elem(a).double());
    }
}

#[test]
fn scalar_mul_is_homomorphic() {
    for a in 0..5u64 {
        for s in 0..5u64 {
            for t in 0..5u64 {
                let joined = elem(a).mul(&ResidueScalar::new(s).add(ResidueScalar::new(t)));
                let split = elem(a).mul(&ResidueScalar::new(s)).add(
                    elem(a).mul(&ResidueScalar::new(t)),
                );
                assert_eq!(joined, split);
            }
        }
    }
}

#[test]
fn scalar_zero_gives_identity() {
    for a in 0..5u64 {
        assert_eq!(elem(a).mul(&ResidueScalar::zero()), ResidueElement::zero());
    }
}

#[test]
fn scalar_one_fixes_element() {
    for a in 0..5u64 {
        assert_eq!(elem(a).mul(&ResidueScalar::one()), elem(a));
    }
}

#[test]
fn serialization_round_trips() {
    for a in 0..5u64 {
        let bytes = elem(a).serialize();
        assert_eq!(bytes, vec![a as u8]);
        assert_eq!(ResidueElement::deserialize(&bytes), Ok(elem(a)));
    }
    let identity_bytes = ResidueElement::zero().serialize();
    assert_eq!(
        ResidueElement::deserialize(&identity_bytes),
        Ok(ResidueElement::zero())
    );
}

#[test]
fn deserialization_rejects_noncanonical_bytes() {
    // The byte five names the identity's residue class non-canonically.
    assert_eq!(
        ResidueElement::deserialize(&[5u8]),
        Err(GroupError::InvalidEncoding)
    );
    assert_eq!(
        ResidueElement::deserialize(&[9u8]),
        Err(GroupError::InvalidEncoding)
    );
    assert_eq!(
        ResidueElement::deserialize(&[]),
        Err(GroupError::InvalidEncoding)
    );
    assert_eq!(
        ResidueElement::deserialize(&[0u8, 0u8]),
        Err(GroupError::InvalidEncoding)
    );
    assert_eq!(
        ResidueElement::deserialize(&[255u8]),
        Err(GroupError::InvalidEncoding)
    );
}

#[test]
fn order_five_scenario() {
    let generator = ResidueElement::generator();
    assert_eq!(generator.mul(&ResidueScalar::new(3)).value(), 3);
    assert_eq!(
        generator.mul(&ResidueScalar::new(5)),
        ResidueElement::zero()
    );
    assert_eq!(generator.mul(&ResidueScalar::new(5)).value(), 0);
    assert_eq!(generator.double().value(), 2);
}

#[test]
fn identity_checks() {
    assert!(ResidueElement::zero().is_zero());
    assert!(!ResidueElement::generator().is_zero());
}

#[test]
fn element_equality_ignores_construction_path() {
    let via_scalar = ResidueElement::generator().mul(&ResidueScalar::new(4));
    let via_addition = elem(2).add(elem(2));
    assert!(via_scalar.eq_element(&via_addition));
    assert!(!via_scalar.eq_element(&ResidueElement::generator()));
}

#[test]
fn scalar_bits_spell_the_representative() {
    let three = ResidueScalar::new(3);
    assert!(three.bit(0));
    assert!(three.bit(1));
    assert!(!three.bit(2));
    assert!(!three.bit(63));
    let four = ResidueScalar::new(4);
    assert!(!four.bit(0));
    assert!(!four.bit(1));
    assert!(four.bit(2));
    assert!(ResidueScalar::new(4).num_bits() >= 3);
}

#[test]
fn scalar_field_arithmetic() {
    assert_eq!(ResidueScalar::new(7), ResidueScalar::new(2));
    assert_eq!(
        ResidueScalar::new(3).add(ResidueScalar::new(4)),
        ResidueScalar::new(2)
    );
    assert_eq!(
        ResidueScalar::new(3).mul(ResidueScalar::new(4)),
        ResidueScalar::new(2)
    );
    assert_eq!(ResidueScalar::zero(), ResidueScalar::new(0));
    assert_eq!(ResidueScalar::one(), ResidueScalar::new(1));
}
