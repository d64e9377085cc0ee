use rand_core::RngCore;

use group_adapter::adapter::ArkworksGroup;
use group_adapter::field::PrimeField;
use group_adapter::group::Group;
use group_adapter::group::GroupError;
use group_adapter::residue::ResidueElement;
use group_adapter::residue::ResidueScalar;

type Wrapped = ArkworksGroup<ResidueElement>;

/// A generator that hands out one fixed word, so both sides of a
/// transparency check can draw the same randomness.
struct FixedRng(u64);

impl rand_core::RngCore for FixedRng {
    fn next_u32(&mut self) -> u32 {
        self.0 as u32
    }

    fn next_u64(&mut self) -> u64 {
        self.0
    }

    fn fill_bytes(&mut self, dest: &mut [u8]) {
        for b in dest.iter_mut() {
            *b = self.0 as u8;
        }
    }

    fn try_fill_bytes(&mut self, dest: &mut [u8]) -> Result<(), rand_core::Error> {
        self.fill_bytes(dest);
        Ok(())
    }
}

fn elem(x: u64) -> ResidueElement {
    ResidueElement::from_uniform_u64(x)
}

#[test]
fn wrap_and_unwrap_are_inverse() {
    for x in 0..5u64 {
        assert_eq!(Wrapped::wrap(elem(x)).into_inner(), elem(x));
    }
}

#[test]
fn identity_and_generator_delegate() {
    assert_eq!(Wrapped::identity().into_inner(), ResidueElement::zero());
    assert_eq!(
        Wrapped::generator().into_inner(),
        ResidueElement::generator()
    );
}

#[test]
fn is_identity_delegates() {
    assert!(Wrapped::identity().is_identity());
    assert!(!Wrapped::generator().is_identity());
    for x in 0..5u64 {
        assert_eq!(
            Wrapped::wrap(elem(x)).is_identity(),
            elem(x).is_zero()
        );
    }
}

#[test]
fn double_commutes_with_wrapping() {
    for x in 0..5u64 {
        assert_eq!(
            Wrapped::wrap(elem(x)).double().into_inner(),
            elem(x).double()
        );
    }
}

#[test]
fn add_sub_neg_commute_with_wrapping() {
    for a in 0..5u64 {
        for b in 0..5u64 {
            let wa = Wrapped::wrap(elem(a));
            let wb = Wrapped::wrap(elem(b));
            assert_eq!(wa.add(wb).into_inner(), elem(a).add(elem(b)));
            assert_eq!(wa.sub(wb).into_inner(), elem(a).sub(elem(b)));
        }
        assert_eq!(Wrapped::wrap(elem(a)).neg().into_inner(), elem(a).neg());
    }
}

#[test]
fn scalar_action_commutes_with_wrapping() {
    for a in 0..5u64 {
        for s in 0..5u64 {
            let scalar = ResidueScalar::new(s);
            assert_eq!(
                Wrapped::wrap(elem(a)).mul(&scalar).into_inner(),
                elem(a).mul(&scalar)
            );
        }
    }
}

#[test]
fn assignment_forms_match_value_forms() {
    let scalar = ResidueScalar::new(3);
    for a in 0..5u64 {
        let mut acc = Wrapped::wrap(elem(a));
        acc.add_assign(Wrapped::generator());
        assert_eq!(acc, Wrapped::wrap(elem(a)).add(Wrapped::generator()));

        let mut acc = Wrapped::wrap(elem(a));
        acc.sub_assign(Wrapped::generator());
        assert_eq!(acc, Wrapped::wrap(elem(a)).sub(Wrapped::generator()));

        let mut acc = Wrapped::wrap(elem(a));
        acc.mul_assign(&scalar);
        assert_eq!(acc, Wrapped::wrap(elem(a)).mul(&scalar));
    }
}

#[test]
fn equality_and_serialization_delegate() {
    for a in 0..5u64 {
        let wrapped = Wrapped::wrap(elem(a));
        assert!(wrapped.eq_element(&Wrapped::wrap(elem(a))));
        assert_eq!(wrapped.serialize(), elem(a).serialize());
        assert_eq!(
            Wrapped::deserialize(&wrapped.serialize()),
            Ok(wrapped)
        );
    }
    assert_eq!(
        Wrapped::deserialize(&[7u8]),
        Err(GroupError::InvalidEncoding)
    );
}

#[test]
fn random_reduces_the_drawn_word() {
    let drawn = Wrapped::random(&mut FixedRng(7));
    assert_eq!(drawn.into_inner(), elem(2));
    let direct = ResidueElement::from_uniform_u64(FixedRng(7).next_u64());
    assert_eq!(drawn.into_inner(), direct);
}

#[test]
fn every_operation_is_transparent() {
    for x in 0..5u64 {
        for y in 0..5u64 {
            for s in 0..5u64 {
                assert!(Wrapped::transparent(elem(x), elem(y), &ResidueScalar::new(s)));
            }
        }
    }
}

#[test]
fn sum_folds_the_group_law() {
    let elems = vec![
        Wrapped::wrap(elem(1)),
        Wrapped::wrap(elem(2)),
        Wrapped::wrap(elem(4)),
        Wrapped::wrap(elem(3)),
    ];
    let total = Wrapped::sum(&elems);
    assert_eq!(total.into_inner(), elem(0));

    let empty: Vec<Wrapped> = Vec::new();
    assert_eq!(Wrapped::sum(&empty), Wrapped::identity());
}
