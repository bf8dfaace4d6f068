use shamir::{FieldElement, GF256};

#[test]
fn addition() {
    assert_eq!(GF256(0b_1000).plus(&GF256(0b_1110)), GF256(0b_0110));
}

#[test]
fn identity() {
    assert_eq!(GF256(0b_10011010).times(&GF256(0b_1)), GF256(0b_10011010));
}

#[test]
fn zero_element() {
    assert_eq!(GF256(0b_011010).times(&GF256(0b_0)), GF256(0b_0));
}

#[test]
fn inverse() {
    let a = GF256(46);
    let b = a.inverse();
    assert_eq!(a.times(&b).times(&a), a)
}

#[test]
fn multiply() {
    let a = GF256(0b_01010111);
    let b = GF256(0b_00010011);
    assert_eq!(a.times(&b), GF256(0b_11111110));
}

#[test]
fn addition_commutes_and_associates() {
    let samples = [0u8, 1, 46, 0x80, 0xff, 0x53, 0xca];
    for &a in samples.iter() {
        for &b in samples.iter() {
            assert_eq!(GF256(a).plus(&GF256(b)), GF256(b).plus(&GF256(a)));
            for &c in samples.iter() {
                let left = GF256(a).plus(&GF256(b).plus(&GF256(c)));
                let right = GF256(a).plus(&GF256(b)).plus(&GF256(c));
                assert_eq!(left, right);
            }
        }
    }
}

#[test]
fn subtraction_undoes_addition() {
    for a in 0u16..256 {
        let a = GF256(a as u8);
        let b = GF256(0x1d);
        assert_eq!(a.plus(&b).minus(&b), a);
    }
}

#[test]
fn multiplication_commutes() {
    for a in 0u16..256 {
        for b in 0u16..256 {
            let x = GF256(a as u8);
            let y = GF256(b as u8);
            assert_eq!(x.times(&y), y.times(&x));
        }
    }
}

#[test]
fn multiplication_distributes_over_addition() {
    let samples = [0u8, 1, 2, 46, 0x80, 0xff, 0x53, 0xca, 0x13, 0x57];
    for &a in samples.iter() {
        for &b in samples.iter() {
            for &c in samples.iter() {
                let left = GF256(a).times(&GF256(b).plus(&GF256(c)));
                let right = GF256(a).times(&GF256(b)).plus(&GF256(a).times(&GF256(c)));
                assert_eq!(left, right);
            }
        }
    }
}

#[test]
fn every_nonzero_element_has_an_inverse() {
    for a in 1u16..256 {
        let a = GF256(a as u8);
        assert_eq!(a.times(&a.inverse()), GF256(1));
        assert_eq!(a.inverse(), a.explicit_inverse());
    }
}

#[test]
fn checked_inverse_rejects_zero() {
    assert_eq!(GF256(0).checked_inverse(), Err(shamir::Error::ZeroInverse));
    assert_eq!(GF256(46).checked_inverse(), Ok(GF256(46).inverse()));
}

#[test]
fn field_cardinality() {
    assert_eq!(GF256::field_element_count(), 256);
}

#[test]
fn sampling_space_bounds() {
    let seed = GF256(0);
    assert_eq!(
        seed.sample_n_others(256),
        Err(shamir::Error::InsufficientSamplingSpace)
    );
    let all = seed.sample_n_others(255).unwrap();
    assert_eq!(all.len(), 255);
    for (i, a) in all.iter().enumerate() {
        assert_ne!(*a, seed);
        for b in all[i + 1..].iter() {
            assert_ne!(*a, *b);
        }
    }
}
