use particles::binary32::Binary32;

fn b(x: f32) -> Binary32 {
    Binary32::from_bits(x.to_bits())
}

fn samples() -> Vec<f32> {
    vec![
        0.0,
        -0.0,
        f32::from_bits(1),
        -f32::from_bits(1),
        f32::from_bits(0x007f_ffff),
        f32::MIN_POSITIVE,
        -f32::MIN_POSITIVE,
        0.1,
        0.316,
        1.0,
        -1.0,
        1.000_000_1,
        6.666_666_6,
        10.0,
        -10.0,
        199.999_98,
        200.0,
        200.000_02,
        205.0,
        -205.0,
        1.0e30,
        f32::MAX,
        f32::MIN,
        f32::INFINITY,
        f32::NEG_INFINITY,
        f32::NAN,
        -f32::NAN,
        f32::from_bits(0x7f80_0001),
        f32::from_bits(0xffff_ffff),
    ]
}

#[test]
fn from_bits_keeps_the_encoding() {
    assert_eq!(Binary32::from_bits(0x4348_0000).bits, 0x4348_0000);
    assert_eq!(Binary32::from_bits(0x4348_0000).to_bits(), 200.0f32.to_bits());
    assert_eq!(b(-10.0).to_bits(), 0xc120_0000);
}

#[test]
fn zero_is_positive_zero() {
    assert_eq!(Binary32::zero().to_bits(), 0);
    assert_eq!(Binary32::zero(), b(0.0));
    assert_ne!(Binary32::zero(), b(-0.0));
}

#[test]
fn lt_agrees_with_the_hardware() {
    for x in samples() {
        for y in samples() {
            assert_eq!(b(x).lt(b(y)), x < y, "{:?} < {:?}", x, y);
        }
    }
}

#[test]
fn gt_agrees_with_the_hardware() {
    for x in samples() {
        for y in samples() {
            assert_eq!(b(x).gt(b(y)), x > y, "{:?} > {:?}", x, y);
        }
    }
}

#[test]
fn lt_on_neighbouring_encodings() {
    let mut bits: u32 = 0;
    while bits < 0x7f80_0000 {
        let low = Binary32::from_bits(bits);
        let high = Binary32::from_bits(bits + 1);
        assert!(low.lt(high));
        assert!(!high.lt(low));
        assert!(high.negated().lt(low.negated()));
        bits += 0x0001_0001;
    }
}

#[test]
fn lt_treats_both_zeros_alike() {
    assert!(!b(0.0).lt(b(-0.0)));
    assert!(!b(-0.0).lt(b(0.0)));
    assert!(b(-0.0).lt(b(f32::from_bits(1))));
    assert!(b(-f32::from_bits(1)).lt(b(0.0)));
}

#[test]
fn nan_is_never_ordered() {
    for x in samples() {
        assert!(!b(f32::NAN).lt(b(x)));
        assert!(!b(x).lt(b(f32::NAN)));
        assert!(!b(f32::NAN).gt(b(x)));
        assert!(!b(x).gt(b(f32::NAN)));
    }
}

#[test]
fn is_nan_agrees_with_the_hardware() {
    for x in samples() {
        assert_eq!(b(x).is_nan(), x.is_nan(), "{:?}", x);
    }
    assert!(!Binary32::from_bits(0x7f80_0000).is_nan());
    assert!(Binary32::from_bits(0x7f80_0001).is_nan());
    assert!(!Binary32::from_bits(0xff80_0000).is_nan());
    assert!(Binary32::from_bits(0xff80_0001).is_nan());
}

#[test]
fn is_zero_agrees_with_the_hardware() {
    for x in samples() {
        assert_eq!(b(x).is_zero(), x == 0.0, "{:?}", x);
    }
    assert!(Binary32::from_bits(0x8000_0000).is_zero());
    assert!(!Binary32::from_bits(0x8000_0001).is_zero());
}

#[test]
fn negated_agrees_with_the_hardware() {
    for x in samples() {
        assert_eq!(b(x).negated().to_bits(), (-x).to_bits(), "{:?}", x);
    }
    assert_eq!(b(10.0).negated(), b(-10.0));
    assert_eq!(b(0.0).negated().to_bits(), 0x8000_0000);
}

#[test]
fn negated_twice_is_the_datum() {
    for x in samples() {
        assert_eq!(b(x).negated().negated(), b(x));
    }
}
