use simd_addons::exp::{
    exp_special32, exp_special64, EXP2_LIMIT32, EXP2_LIMIT64, EXP_LIMIT32, EXP_LIMIT64,
    MINUS_ONE32, MINUS_ONE64,
};
use simd_addons::trig::{
    atan2_ratio32, atan2_ratio64,
    asin_fold32, asin_fold64, atan_offset32, atan_offset64, atan_split32, atan_split64,
    atan2_quadrants32, atan2_quadrants64, atan2_zeros32, atan2_zeros64, cos_from_quadrants32,
    cos_from_quadrants64, quadrants32, quadrants64, sin_from_quadrants32, sin_from_quadrants64,
    tan_from_quadrants64, trig_clamp32, trig_clamp64, TRIG_LIMIT32, TRIG_LIMIT64,
};
use simd_addons::{Lanes32, Lanes64};

fn l32<const N: usize>(v: [f32; N]) -> Lanes32<N> {
    Lanes32::from_bits(v.map(f32::to_bits))
}

fn l64<const N: usize>(v: [f64; N]) -> Lanes64<N> {
    Lanes64::from_bits(v.map(f64::to_bits))
}

fn f32s<const N: usize>(v: Lanes32<N>) -> [f32; N] {
    v.bits.map(f32::from_bits)
}

fn f64s<const N: usize>(v: Lanes64<N>) -> [f64; N] {
    v.bits.map(f64::from_bits)
}

#[test]
fn limit_constants() {
    assert_eq!(f32::from_bits(EXP_LIMIT32), 88.0);
    assert_eq!(f32::from_bits(EXP2_LIMIT32), 127.0);
    assert_eq!(f64::from_bits(EXP_LIMIT64), 709.0);
    assert_eq!(f64::from_bits(EXP2_LIMIT64), 1023.0);
    assert_eq!(f32::from_bits(TRIG_LIMIT32), 1.0e5);
    assert_eq!(f64::from_bits(TRIG_LIMIT64), 1.0e13);
    assert_eq!(f32::from_bits(MINUS_ONE32), -1.0);
    assert_eq!(f64::from_bits(MINUS_ONE64), -1.0);
}

#[test]
fn exp_overflow_and_special_values() {
    let x = l32([1000.0, -1000.0, f32::NAN, 88.0, -88.0, 88.00001, f32::INFINITY, f32::NEG_INFINITY]);
    let approx = l32([7.0; 8]);
    let exp = f32s(exp_special32(x, approx, EXP_LIMIT32, 0));
    assert_eq!(exp[0], f32::INFINITY);
    assert_eq!(exp[1].to_bits(), 0.0f32.to_bits());
    assert!(exp[2].is_nan());
    assert_eq!(exp[3], 7.0);
    assert_eq!(exp[4], 7.0);
    assert_eq!(exp[5], f32::INFINITY);
    assert_eq!(exp[6], f32::INFINITY);
    assert_eq!(exp[7].to_bits(), 0.0f32.to_bits());
    let exp_m1 = f32s(exp_special32(x, approx, EXP_LIMIT32, MINUS_ONE32));
    assert_eq!(exp_m1[1], -1.0);
    assert_eq!(exp_m1[7], -1.0);
    let exp2 = f32s(exp_special32(l32([127.0, 127.5, -128.0]), l32([7.0; 3]), EXP2_LIMIT32, 0));
    assert_eq!(exp2, [7.0, f32::INFINITY, 0.0]);
    let in_range = l32([0.0, 1.0, -1.0, 50.0]);
    assert_eq!(exp_special32(in_range, approx_of4(), EXP_LIMIT32, 0), approx_of4());

    let y = l64([1000.0, -1000.0, f64::NAN, 709.0, f64::NEG_INFINITY]);
    let e = f64s(exp_special64(y, l64([3.0; 5]), EXP_LIMIT64, 0));
    assert_eq!(e[0], f64::INFINITY);
    assert_eq!(e[1].to_bits(), 0.0f64.to_bits());
    assert!(e[2].is_nan());
    assert_eq!(e[3], 3.0);
    assert_eq!(e[4].to_bits(), 0.0f64.to_bits());
    let em1 = f64s(exp_special64(y, l64([3.0; 5]), EXP_LIMIT64, MINUS_ONE64));
    assert_eq!(em1[1], -1.0);
}

fn approx_of4() -> Lanes32<4> {
    l32([1.0, 2.718, 0.368, 5.2e21])
}

#[test]
fn trig_clamp_maps_out_of_range_to_zero() {
    let r = f32s(trig_clamp32(l32([-3.0, 99999.0, 1.0e5, -2.0e5, f32::NAN, f32::INFINITY, -0.0])));
    assert_eq!(r.map(f32::to_bits), [3.0f32, 99999.0, 0.0, 0.0, 0.0, 0.0, 0.0].map(f32::to_bits));
    let s = f64s(trig_clamp64(l64([-3.0, 9.0e12, 1.0e13, f64::NEG_INFINITY, f64::NAN])));
    assert_eq!(s, [3.0, 9.0e12, 0.0, 0.0, 0.0]);
}

#[test]
fn quadrants_are_integer_values() {
    assert_eq!(quadrants32(l32([0.0, 3.0, 63662.0, 2.5, 1.0e10, f32::NAN])), [0, 3, 63662, 0, 0, 0]);
    assert_eq!(
        quadrants64(l64([0.0, 7.0, 6.0e12, 0.5, 1.0e19, f64::INFINITY])),
        [0, 7, 6_000_000_000_000, 0, 0, 0]
    );
}

#[test]
fn sin_cos_quadrant_selection() {
    // lanes: sine branch 0.25, cosine branch 0.75, quadrants 0..4
    let s = l32([0.25; 4]);
    let c = l32([0.75; 4]);
    let q = [0u32, 1, 2, 3];
    let pos = f32s(sin_from_quadrants32(l32([1.0; 4]), q, s, c));
    assert_eq!(pos, [0.25, 0.75, -0.25, -0.75]);
    let neg = f32s(sin_from_quadrants32(l32([-1.0; 4]), q, s, c));
    assert_eq!(neg, [-0.25, -0.75, 0.25, 0.75]);
    let cos = f32s(cos_from_quadrants32(q, s, c));
    assert_eq!(cos, [0.75, -0.25, -0.75, 0.25]);

    let s64 = l64([0.25; 4]);
    let c64 = l64([0.75; 4]);
    let q64 = [4u64, 5, 6, 7];
    assert_eq!(f64s(sin_from_quadrants64(l64([2.0; 4]), q64, s64, c64)), [0.25, 0.75, -0.25, -0.75]);
    assert_eq!(f64s(cos_from_quadrants64(q64, s64, c64)), [0.75, -0.25, -0.75, 0.25]);
    assert_eq!(
        f64s(tan_from_quadrants64(l64([-1.0, 1.0]), [0, 1], l64([0.5; 2]), l64([-2.0; 2]))),
        [-0.5, -2.0]
    );
}

#[test]
fn sin_and_cos_of_zero() {
    // reduction of 0 gives quadrant 0, with sine branch 0 and cosine branch 1
    let x = l32([0.0, -0.0]);
    let q = quadrants32(l32([0.0, 0.0]));
    let s = l32([0.0, 0.0]);
    let c = l32([1.0, 1.0]);
    assert_eq!(f32s(sin_from_quadrants32(x, q, s, c)).map(f32::to_bits), [0.0f32, -0.0].map(f32::to_bits));
    assert_eq!(f32s(cos_from_quadrants32(q, s, c)), [1.0, 1.0]);
}

// atan2 of signed zeros, finished as the kernel does: the first-quadrant angle
// (the zero fix-up), then `pi - v` where x is negative, then y's sign.
fn atan2_zero_pair32(y: f32, x: f32) -> f32 {
    let yl = l32([y]);
    let xl = l32([x]);
    let v = atan2_zeros32(yl, xl, l32([f32::NAN]));
    let pi_minus = l32([std::f32::consts::PI - f32::from_bits(v.bits[0])]);
    f32::from_bits(atan2_quadrants32(yl, xl, v, pi_minus).bits[0])
}

fn atan2_zero_pair64(y: f64, x: f64) -> f64 {
    let yl = l64([y]);
    let xl = l64([x]);
    let v = atan2_zeros64(yl, xl, l64([f64::NAN]));
    let pi_minus = l64([std::f64::consts::PI - f64::from_bits(v.bits[0])]);
    f64::from_bits(atan2_quadrants64(yl, xl, v, pi_minus).bits[0])
}

#[test]
fn atan2_signed_zero_table() {
    for y in [0.0f32, -0.0] {
        for x in [0.0f32, -0.0] {
            assert_eq!(atan2_zero_pair32(y, x).to_bits(), y.atan2(x).to_bits(), "atan2({}, {})", y, x);
        }
    }
    for y in [0.0f64, -0.0] {
        for x in [0.0f64, -0.0] {
            assert_eq!(atan2_zero_pair64(y, x).to_bits(), y.atan2(x).to_bits(), "atan2({}, {})", y, x);
        }
    }
    assert_eq!(atan2_zero_pair32(0.0, -0.0), std::f32::consts::PI);
}

#[test]
fn atan2_quadrant_fixup() {
    // first-quadrant angle 0.5 for the four sign combinations of (y, x)
    let y = l32([1.0, 1.0, -1.0, -1.0]);
    let x = l32([1.0, -1.0, 1.0, -1.0]);
    let v = l32([0.5; 4]);
    let pm = l32([std::f32::consts::PI - 0.5; 4]);
    let untouched = atan2_zeros32(y, x, v);
    assert_eq!(untouched, v);
    let r = f32s(atan2_quadrants32(y, x, v, pm));
    let p = std::f32::consts::PI - 0.5;
    assert_eq!(r, [0.5, p, -0.5, -p]);
}

#[test]
fn inverse_trig_domain_masks() {
    let x = l32([0.49, -0.5, 0.75, -1.0, f32::NAN, 0.0]);
    assert_eq!(asin_fold32(x).lanes, [false, true, true, true, false, false]);
    let y = l64([0.4999, 0.5, -0.9, f64::NAN]);
    assert_eq!(asin_fold64(y).lanes, [false, true, true, false]);

    let t = l32([0.1, 0.41421354, 1.0, 2.4142135, 3.0, f32::INFINITY, f32::NAN]);
    let (not_big, not_small) = atan_split32(t);
    assert_eq!(not_big.lanes, [true, true, true, true, false, false, false]);
    assert_eq!(not_small.lanes, [false, true, true, true, true, true, false]);
    let off = f32s(atan_offset32(not_big, not_small));
    let q = std::f32::consts::FRAC_PI_4;
    let h = std::f32::consts::FRAC_PI_2;
    assert_eq!(off, [0.0, q, q, q, h, h, 0.0]);

    let u = l64([0.4, std::f64::consts::SQRT_2 - 1.0, 2.0, 1.0e9]);
    let (nb, ns) = atan_split64(u);
    assert_eq!(nb.lanes, [true, true, true, false]);
    assert_eq!(ns.lanes, [false, true, true, true]);
    let off64 = f64s(atan_offset64(nb, ns));
    assert_eq!(
        off64,
        [0.0, std::f64::consts::FRAC_PI_4, std::f64::consts::FRAC_PI_4, std::f64::consts::FRAC_PI_2]
    );
}

#[test]
fn atan2_nan_and_infinite_lanes() {
    let y = l32([f32::NAN, 1.0, f32::INFINITY, f32::NEG_INFINITY, 2.0]);
    let x = l32([1.0, f32::NAN, f32::INFINITY, f32::INFINITY, 4.0]);
    let q = l32([0.25; 5]);
    let ratio = f32s(atan2_ratio32(y, x, q));
    assert!(ratio[0].is_nan() && ratio[1].is_nan());
    assert_eq!(ratio[2].to_bits(), 0);
    assert_eq!(ratio[3].to_bits(), 0);
    assert_eq!(ratio[4], 0.25);
    let v = l32([0.5; 5]);
    let r = f32s(atan2_quadrants32(y, x, v, l32([2.5; 5])));
    assert!(r[0].is_nan() && r[1].is_nan());
    assert_eq!(&r[2..], &[0.5, -0.5, 0.5]);

    let y64 = l64([f64::NAN, f64::INFINITY, 3.0]);
    let x64 = l64([f64::NEG_INFINITY, f64::NEG_INFINITY, f64::NAN]);
    let ratio64 = f64s(atan2_ratio64(y64, x64, l64([0.75; 3])));
    assert!(ratio64[0].is_nan() && ratio64[2].is_nan());
    assert_eq!(ratio64[1].to_bits(), 0);
    let r64 = f64s(atan2_quadrants64(y64, x64, l64([0.5; 3]), l64([2.5; 3])));
    assert!(r64[0].is_nan() && r64[2].is_nan());
    assert_eq!(r64[1], 2.5);
}
