use simd_addons::{FloatBitUtils, Lanes32, Lanes64, Mask};

const EDGE32: [f32; 12] = [
    0.0,
    -0.0,
    1.0,
    -1.0,
    0.5,
    -2.5,
    1.0e-45,
    -3.0e-39,
    f32::MAX,
    f32::INFINITY,
    f32::NEG_INFINITY,
    f32::NAN,
];

const EDGE64: [f64; 10] = [
    0.0,
    -0.0,
    1.0,
    -1.0,
    0.75,
    5.0e-324,
    -1.0e300,
    f64::INFINITY,
    f64::NEG_INFINITY,
    f64::NAN,
];

fn lanes32(v: [f32; 4]) -> Lanes32<4> {
    Lanes32::from_bits(v.map(f32::to_bits))
}

fn lanes64(v: [f64; 4]) -> Lanes64<4> {
    Lanes64::from_bits(v.map(f64::to_bits))
}

#[test]
fn comparisons32_match_ieee() {
    for a in EDGE32 {
        for b in EDGE32 {
            let x = Lanes32::<1>::splat(a.to_bits());
            let y = Lanes32::<1>::splat(b.to_bits());
            assert_eq!(x.simd_lt(y).lanes[0], a < b, "{} < {}", a, b);
            assert_eq!(x.simd_le(y).lanes[0], a <= b, "{} <= {}", a, b);
            assert_eq!(x.simd_ge(y).lanes[0], a >= b, "{} >= {}", a, b);
            assert_eq!(x.simd_eq(y).lanes[0], a == b, "{} == {}", a, b);
        }
    }
}

#[test]
fn comparisons64_match_ieee() {
    for a in EDGE64 {
        for b in EDGE64 {
            let x = Lanes64::<1>::splat(a.to_bits());
            let y = Lanes64::<1>::splat(b.to_bits());
            assert_eq!(x.simd_lt(y).lanes[0], a < b, "{} < {}", a, b);
            assert_eq!(x.simd_le(y).lanes[0], a <= b, "{} <= {}", a, b);
            assert_eq!(x.simd_ge(y).lanes[0], a >= b, "{} >= {}", a, b);
            assert_eq!(x.simd_eq(y).lanes[0], a == b, "{} == {}", a, b);
        }
    }
}

#[test]
fn classification_matches_scalar() {
    for a in EDGE32 {
        let x = Lanes32::<1>::splat(a.to_bits());
        assert_eq!(x.is_nan().lanes[0], a.is_nan());
        assert_eq!(x.is_finite().lanes[0], a.is_finite());
        assert_eq!(x.is_sign_positive().lanes[0], a.is_sign_positive());
        assert_eq!(f32::from_bits(x.abs().bits[0]).to_bits(), a.abs().to_bits());
    }
    for a in EDGE64 {
        let x = Lanes64::<1>::splat(a.to_bits());
        assert_eq!(x.is_nan().lanes[0], a.is_nan());
        assert_eq!(x.is_finite().lanes[0], a.is_finite());
        assert_eq!(x.is_sign_positive().lanes[0], a.is_sign_positive());
        assert_eq!(x.abs().bits[0], a.abs().to_bits());
    }
}

#[test]
fn select_follows_lane_predicates() {
    let a = [-1.5f32, 2.0, f32::NAN, -0.0, 7.0, f32::NEG_INFINITY, 0.25, -3.0];
    let b = [10.0f32, 20.0, 30.0, 40.0, 50.0, 60.0, 70.0, 80.0];
    let x = Lanes32::from_bits(a.map(f32::to_bits));
    let y = Lanes32::from_bits(b.map(f32::to_bits));
    let negative = x.simd_lt(Lanes32::splat(0.0f32.to_bits()));
    let nan = x.is_nan();
    let picked_neg = negative.select32(x, y);
    let picked_nan = nan.select32(x, y);
    for i in 0..8 {
        let want_neg = if a[i] < 0.0 { a[i] } else { b[i] };
        let want_nan = if a[i].is_nan() { a[i] } else { b[i] };
        assert_eq!(picked_neg.bits[i], want_neg.to_bits());
        assert_eq!(picked_nan.bits[i], want_nan.to_bits());
    }
    let c = [1.0f64, -2.0, f64::NAN, 0.0];
    let d = [9.0f64, 9.0, 9.0, 9.0];
    let picked = lanes64(c).is_nan().not().select64(lanes64(c), lanes64(d));
    assert_eq!(picked.bits, [1.0f64, -2.0, 9.0, 0.0].map(f64::to_bits));
}

#[test]
fn mask_logic() {
    let m = Mask::from_array([true, true, false, false]);
    let n = Mask::from_array([true, false, true, false]);
    assert_eq!(m.and(&n).lanes, [true, false, false, false]);
    assert_eq!(m.or(&n).lanes, [true, true, true, false]);
    assert_eq!(m.not().lanes, [false, false, true, true]);
    assert!(!m.all());
    assert!(Mask::from_array([true; 4]).all());
    assert_eq!(m.select32(lanes32([1.0, 2.0, 3.0, 4.0]), lanes32([5.0, 6.0, 7.0, 8.0])), lanes32([1.0, 2.0, 7.0, 8.0]));
}

#[test]
fn bits_round_trip() {
    let v = [1.5f32, -0.0, f32::INFINITY, 3.0e-41];
    let x = lanes32(v);
    assert_eq!(Lanes32::from_bits(x.to_bits()), x);
    assert_eq!(x.to_bits().map(f32::from_bits).map(f32::to_bits), v.map(f32::to_bits));
}

#[test]
fn sign_bit_examples() {
    assert_eq!(
        lanes32([0.0, -0.0, 1.0, -f32::INFINITY]).sign_bit(),
        [0u32, 1, 0, 1].map(|b| b << 31)
    );
    assert_eq!(
        lanes64([0.0, -0.0, 1.0, -f64::INFINITY]).sign_bit(),
        [0u64, 1, 0, 1].map(|b| b << 63)
    );
}

#[test]
fn sign_combine_examples() {
    let x = lanes32([1.0, 0.0, -0.0, -2.0]);
    let signs = lanes32([1.0, -2.0, -f32::INFINITY, -1.0]);
    assert_eq!(x.sign_combine(signs), lanes32([1.0, -0.0, 0.0, 2.0]));
    let y = lanes64([1.0, 0.0, -0.0, -2.0]);
    let signs64 = lanes64([1.0, -2.0, -f64::INFINITY, -1.0]);
    assert_eq!(y.sign_combine(signs64), lanes64([1.0, -0.0, 0.0, 2.0]));
}

#[test]
fn sign_combine_twice_restores() {
    let x = lanes32([1.0, -0.0, f32::INFINITY, -2.5]);
    let s = lanes32([-1.0, -3.0, 2.0, -0.0]);
    assert_eq!(x.sign_combine(s).sign_combine(s), x);
    let y = lanes64([1.0, -0.0, f64::NAN, -2.5]);
    let t = lanes64([-1.0, -3.0, 2.0, -0.0]);
    assert_eq!(y.sign_combine(t).sign_combine(t), y);
}
