use simd_addons::exp::{pow2i32, pow2i64};
use simd_addons::{FastRound, Lanes32, Lanes64};

#[test]
fn fast_round32_matches_ties_even() {
    let mut values = vec![
        0.0f32,
        -0.0,
        0.5,
        -0.5,
        0.49999997,
        0.50000006,
        1.5,
        2.5,
        -2.5,
        3.5,
        1.0e-40,
        -1.0e-40,
        8388607.5,
        8388608.0,
        16777215.0,
        1.0e30,
        f32::MAX,
        f32::INFINITY,
        f32::NEG_INFINITY,
        1.9999999,
        -126.5,
        -127.5,
    ];
    for i in 0..4000 {
        values.push((i as f32 - 2000.0) * 0.173);
        values.push((i as f32) * 4093.25);
    }
    for v in values {
        let r = Lanes32::<1>::splat(v.to_bits()).fast_round().bits[0];
        assert_eq!(r, v.round_ties_even().to_bits(), "round({})", v);
    }
    let nan = Lanes32::<1>::splat(f32::NAN.to_bits()).fast_round().bits[0];
    assert!(f32::from_bits(nan).is_nan());
}

#[test]
fn fast_round64_matches_ties_even() {
    let mut values = vec![
        0.0f64,
        -0.0,
        0.5,
        -0.5,
        1.5,
        2.5,
        -2.5,
        4503599627370495.5,
        4503599627370496.0,
        9007199254740991.0,
        1.0e300,
        5.0e-324,
        f64::INFINITY,
        f64::NEG_INFINITY,
        0.49999999999999994,
        -1023.5,
    ];
    for i in 0..4000 {
        values.push((i as f64 - 2000.0) * 0.173);
        values.push((i as f64) * 1.0e9 + 0.5);
    }
    for v in values {
        let r = Lanes64::<1>::splat(v.to_bits()).fast_round().bits[0];
        assert_eq!(r, v.round_ties_even().to_bits(), "round({})", v);
    }
    let nan = Lanes64::<1>::splat(f64::NAN.to_bits()).fast_round().bits[0];
    assert!(f64::from_bits(nan).is_nan());
}

#[test]
fn pow2i32_builds_powers_of_two() {
    for n in -126..=127 {
        let r = pow2i32(Lanes32::<1>::splat((n as f32).to_bits())).bits[0];
        assert_eq!(f32::from_bits(r), 2.0f32.powi(n), "2^{}", n);
    }
    assert_eq!(pow2i32(Lanes32::<1>::splat((-127.0f32).to_bits())).bits[0], 0);
    assert_eq!(
        f32::from_bits(pow2i32(Lanes32::<1>::splat(128.0f32.to_bits())).bits[0]),
        f32::INFINITY
    );
    for bad in [0.5f32, 129.0, -128.0, f32::NAN, f32::INFINITY, 1.0e20] {
        let r = pow2i32(Lanes32::<1>::splat(bad.to_bits())).bits[0];
        assert!(f32::from_bits(r).is_nan(), "pow2i({})", bad);
    }
    assert_eq!(pow2i32(Lanes32::<1>::splat((-0.0f32).to_bits())).bits[0], 1.0f32.to_bits());
}

#[test]
fn pow2i64_builds_powers_of_two() {
    for n in -1022..=1023 {
        let r = pow2i64(Lanes64::<1>::splat((n as f64).to_bits())).bits[0];
        assert_eq!(f64::from_bits(r), 2.0f64.powi(n), "2^{}", n);
    }
    assert_eq!(pow2i64(Lanes64::<1>::splat((-1023.0f64).to_bits())).bits[0], 0);
    assert_eq!(
        f64::from_bits(pow2i64(Lanes64::<1>::splat(1024.0f64.to_bits())).bits[0]),
        f64::INFINITY
    );
    for bad in [0.25f64, 1025.0, -1024.0, f64::NAN, f64::NEG_INFINITY] {
        let r = pow2i64(Lanes64::<1>::splat(bad.to_bits())).bits[0];
        assert!(f64::from_bits(r).is_nan(), "pow2i({})", bad);
    }
}

#[test]
fn fast_round_on_scattered_bit_patterns() {
    let mut s: u64 = 0x9e37_79b9_7f4a_7c15;
    for _ in 0..200_000 {
        s = s.wrapping_mul(6364136223846793005).wrapping_add(1442695040888963407);
        let b32 = (s >> 32) as u32;
        let v32 = f32::from_bits(b32);
        let r32 = Lanes32::<1>::splat(b32).fast_round().bits[0];
        if v32.is_nan() {
            assert!(f32::from_bits(r32).is_nan());
        } else {
            assert_eq!(r32, v32.round_ties_even().to_bits(), "round({:e})", v32);
        }
        let v64 = f64::from_bits(s);
        let r64 = Lanes64::<1>::splat(s).fast_round().bits[0];
        if v64.is_nan() {
            assert!(f64::from_bits(r64).is_nan());
        } else {
            assert_eq!(r64, v64.round_ties_even().to_bits(), "round({:e})", v64);
        }
    }
}

#[test]
fn rounding_twice_changes_nothing() {
    for v in [2.5f32, -3.5, 0.5, 1.0e-30, 123456.7, -0.49] {
        let once = Lanes32::<1>::splat(v.to_bits()).fast_round();
        assert_eq!(once.fast_round(), once);
    }
    for v in [2.5f64, -7.5, 1.0e17 + 0.5, -0.5] {
        let once = Lanes64::<1>::splat(v.to_bits()).fast_round();
        assert_eq!(once.fast_round(), once);
    }
}
