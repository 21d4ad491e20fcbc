use zequal::binary::{Sign, Zequal, Zequals};

#[test]
fn test_new() {
    assert_eq!(
        Zequal::new(),
        Zequal {
            exponent: 0,
            sign: Sign::Zero
        }
    )
}

#[test]
fn test_zequal_from_0() {
    let z = Zequal::from(0u128);
    assert_eq!(
        z,
        Zequal {
            exponent: 0,
            sign: Sign::Zero
        }
    );
    assert_eq!(0u128, z.into());
}

#[test]
fn test_zequal_from_1() {
    let z = Zequal::from(1u128);
    assert_eq!(
        z,
        Zequal {
            exponent: 0,
            sign: Sign::Pos
        }
    );
    assert_eq!(1u128, z.into());
}

#[test]
fn test_zequal_from_2() {
    let z = Zequal::from(2u128);
    assert_eq!(
        z,
        Zequal {
            exponent: 1,
            sign: Sign::Pos
        }
    );
    assert_eq!(2u128, z.into());
}

#[test]
fn test_zequals_of_0u128() {
    assert_eq!(0.zequals(), 0u128);
}

#[test]
fn test_zequals_of_0i128() {
    assert_eq!(0.zequals(), 0i128);
}

#[test]
fn test_new_reconstructs_to_zero() {
    assert_eq!(u128::from(Zequal::new()), 0u128);
    assert_eq!(i128::from(Zequal::new()), 0i128);
}

#[test]
fn test_zequal_from_0i128() {
    let z = Zequal::from(0i128);
    assert_eq!(
        z,
        Zequal {
            exponent: 0,
            sign: Sign::Zero
        }
    );
    assert_eq!(0i128, z.into());
}

#[test]
fn test_convert_id_powers_of_two() {
    for num in 0..128u32 {
        let power: u128 = 1u128 << num;
        assert_eq!(u128::from(Zequal::from(power)), power);
    }
}

#[test]
fn test_convert_id_powers_of_two_i128() {
    for num in 0..127u32 {
        let power: i128 = 1i128 << num;
        assert_eq!(i128::from(Zequal::from(power)), power);
    }
}

#[test]
fn test_convert_id_negative_powers_of_two() {
    for num in 0..127u32 {
        let power: i128 = -(1i128 << num);
        assert_eq!(i128::from(Zequal::from(power)), power);
    }
}

#[test]
fn test_convert_id_positive() {
    let samples: [u128; 7] = [1, 3, 5, 1000, 12345678901234567890, u128::MAX / 2, u128::MAX];
    for num in samples {
        assert_eq!(
            u128::from(Zequal::from(num)).leading_zeros(),
            num.leading_zeros()
        );
    }
}

#[test]
fn test_convert_id_negative_sign() {
    let samples: [i128; 9] = [0, 1, -1, 7, -7, 1000, -1000, i128::MAX, i128::MIN];
    for num in samples {
        let zeq: i128 = i128::from(Zequal::from(num));
        assert_eq!(zeq.signum(), num.signum());
    }
}

#[test]
fn test_convert_id_negative_leading_zeros() {
    let samples: [i128; 8] = [1, -1, 7, -7, 1000, -1000, i128::MAX, i128::MIN + 1];
    for num in samples {
        let zeq: i128 = i128::from(Zequal::from(num));
        assert_eq!(zeq.abs().leading_zeros(), num.abs().leading_zeros());
    }
}

#[test]
fn test_zequals_u128() {
    let samples: [u128; 7] = [1, 2, 3, 100, 1023, u128::MAX / 2, u128::MAX];
    for num in samples {
        let zeq: u128 = num.zequals();
        assert_eq!(zeq.count_ones(), 1);

        // zeq <= num < 2*zeq
        assert!(zeq <= num);
        if num.leading_ones() == 0 {
            assert!(zeq << 1 > num)
        }
    }
}

#[test]
fn test_zequals_exact_values() {
    assert_eq!(1000u128.zequals(), 512u128);
    assert_eq!(1000i128.zequals(), 512i128);
    assert_eq!((-1000i128).zequals(), -512i128);
    assert_eq!((-5i128).zequals(), -4i128);
    assert_eq!(u128::MAX.zequals(), 1u128 << 127);
    assert_eq!(i128::MAX.zequals(), 1i128 << 126);
}

#[test]
fn test_zequal_from_most_negative() {
    let z = Zequal::from(i128::MIN);
    assert_eq!(
        z,
        Zequal {
            exponent: 127,
            sign: Sign::Neg
        }
    );
    assert_eq!(i128::from(z), i128::MIN);
}
