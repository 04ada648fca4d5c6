//! The trigonometric family: the bit-level steps of range reduction, quadrant
//! selection and sign reconstruction.
//!
//! The polynomial cores are evaluated in floating point by the caller; this
//! module clamps arguments before reduction, turns the rounded quadrant into
//! an integer, and puts each result together from the sine and cosine branch
//! values with the sign that the quadrant and the argument call for.
use crate::exp::{NAN32, NAN64};
use crate::ieee::{
    abs32, abs64, eq32, eq64, exp32, exp64, finite32, finite64, is_finite32, is_finite64,
    is_nan32, is_nan64, lemma_abs_bits32, lemma_abs_bits64, lemma_abs_order32,
    lemma_abs_order64, lemma_fields32, lemma_fields64, lt32, lt64, mag32, mag64, man32, man64,
    nan32, nan64, sign32, sign64,
};
use crate::integral::{
    int_mag32, int_mag64, is_integral32, is_integral64, small_int_mag32, small_int_mag64,
};
use crate::lanes::{Lanes32, Lanes64, Mask, blend32, blend64};
use crate::util::{sign_bit32, sign_bit64, sign_combine32, sign_combine64};
use vstd::prelude::*;

verus! {

/// Trigonometric functions and their inverses, lane by lane.
pub trait Trigonometry: Sized {
    /// Sine of each lane. Arguments at or above the reduction limit, and
    /// infinities, are reduced as zero.
    fn sin(self) -> Self;

    /// Cosine of each lane, with the same reduction as `sin`.
    fn cos(self) -> Self;

    /// Tangent of each lane.
    fn tan(self) -> Self;

    /// Sine and cosine of each lane. Implementations may share one reduction.
    fn sin_cos(self) -> (r: (Self, Self))
        where
            Self: Copy,
        ensures
            call_ensures(Self::sin, (self,), r.0),
            call_ensures(Self::cos, (self,), r.1),
    {
        (self.sin(), self.cos())
    }

    /// Arcsine of each lane, for arguments in `[-1, 1]`.
    fn asin(self) -> Self;

    /// Arccosine of each lane: `pi/2 - asin`.
    fn acos(self) -> Self;

    /// Arctangent of each lane.
    fn atan(self) -> Self;

    /// Four-quadrant arctangent of `self / x`, lane by lane.
    fn atan2(self, x: Self) -> Self;
}

/// Bit pattern of the binary32 value 1e5: arguments of `sin`, `cos` and `tan`
/// at or above it in magnitude are reduced as zero.
pub const TRIG_LIMIT32: u32 = 0x47c3_5000;

/// The clamped magnitude of one lane: `|x|` below the limit, `+0` otherwise (NaN included).
pub open spec fn clamp_lane32(x: u32, r: u32) -> bool {
    if !is_nan32(x) && mag32(x) < mag32(TRIG_LIMIT32) {
        &&& !sign32(r)
        &&& exp32(r) == exp32(x)
        &&& man32(r) == man32(x)
    } else {
        r == 0
    }
}

/// First step of range reduction: `|x|` where it is below the limit; NaN,
/// infinite and large lanes become `+0`.
pub fn trig_clamp32<const N: usize>(x: Lanes32<N>) -> (r: Lanes32<N>)
    ensures
        forall|i: int| 0 <= i < N ==> clamp_lane32(x.bits[i], r.bits[i]),
{
    let abs_x = x.abs();
    let below = abs_x.simd_lt(Lanes32::splat(TRIG_LIMIT32));
    let zeros = Lanes32::splat(0);
    let r = below.select32(abs_x, zeros);
    proof {
        lemma_fields32(TRIG_LIMIT32);
        assert forall|i: int| 0 <= i < N implies clamp_lane32(x.bits[i], r.bits[i]) by {
            lemma_fields32(x.bits[i]);
            assert(zeros.bits[i] == 0);
        }
    }
    r
}

/// The quadrant of one lane: the magnitude of its integer value where the lane
/// is integral and below 2^31, and zero otherwise.
pub open spec fn quadrant_lane32(q: u32, r: u32) -> bool {
    if is_integral32(q) && int_mag32(q) < 0x8000_0000 {
        r == int_mag32(q)
    } else {
        r == 0
    }
}

/// Second step of range reduction: the rounded quadrant of each lane as an integer.
pub fn quadrants32<const N: usize>(q: Lanes32<N>) -> (r: [u32; N])
    ensures
        forall|i: int| 0 <= i < N ==> quadrant_lane32(q.bits[i], r[i]),
{
    let mut r = q.bits;
    let mut i: usize = 0;
    while i < N
        invariant
            0 <= i <= N,
            forall|j: int| 0 <= j < i ==> quadrant_lane32(q.bits[j], r[j]),
        decreases N - i,
    {
        r[i] = match small_int_mag32(q.bits[i]) {
            Some(k) => k,
            None => 0,
        };
        i = i + 1;
    }
    r
}

/// `v` with its sign flipped exactly when `flip` holds.
pub open spec fn signed_as32(r: u32, v: u32, flip: bool) -> bool {
    &&& exp32(r) == exp32(v)
    &&& man32(r) == man32(v)
    &&& sign32(r) == (sign32(v) != flip)
}

fn sin_lane_scalar32(x: u32, q: u32, s: u32, c: u32) -> (r: u32)
    ensures
        signed_as32(r, if q % 2 == 0 { s } else { c }, sign32(x) != (q % 4 >= 2)),
{
    let v = blend32(q & 1 == 0, s, c);
    let t = x ^ (q << 30);
    proof {
        assert(q & 1 == q % 2) by (bit_vector);
        assert((t >= 0x8000_0000) == ((x >= 0x8000_0000) != (q % 4 >= 2))) by (bit_vector)
            requires
                t == x ^ (q << 30),
        ;
    }
    sign_combine32(v, t)
}

/// Sine from the branch values: per lane, the sine branch `s` in even quadrants
/// and the cosine branch `c` in odd ones, negated in quadrants 2 and 3 (mod 4)
/// and once more for negative `x`.
pub fn sin_from_quadrants32<const N: usize>(
    x: Lanes32<N>,
    q: [u32; N],
    s: Lanes32<N>,
    c: Lanes32<N>,
) -> (r: Lanes32<N>)
    ensures
        forall|i: int|
            0 <= i < N ==> signed_as32(
                r.bits[i],
                if q[i] % 2 == 0 { s.bits[i] } else { c.bits[i] },
                sign32(x.bits[i]) != (q[i] % 4 >= 2),
            ),
{
    let mut r = x.bits;
    let mut i: usize = 0;
    while i < N
        invariant
            0 <= i <= N,
            forall|j: int|
                0 <= j < i ==> signed_as32(
                    r[j],
                    if q[j] % 2 == 0 { s.bits[j] } else { c.bits[j] },
                    sign32(x.bits[j]) != (q[j] % 4 >= 2),
                ),
        decreases N - i,
    {
        r[i] = sin_lane_scalar32(x.bits[i], q[i], s.bits[i], c.bits[i]);
        i = i + 1;
    }
    Lanes32 { bits: r }
}

fn cos_lane_scalar32(q: u32, s: u32, c: u32) -> (r: u32)
    ensures
        signed_as32(r, if q % 2 == 0 { c } else { s }, q % 4 == 1 || q % 4 == 2),
{
    let v = blend32(q & 1 == 0, c, s);
    let t = q.wrapping_add(1) << 30;
    proof {
        assert(q & 1 == q % 2) by (bit_vector);
        assert((t >= 0x8000_0000) == (q % 4 == 1 || q % 4 == 2)) by (bit_vector)
            requires
                t == (q.wrapping_add(1)) << 30,
        ;
    }
    sign_combine32(v, t)
}

/// Cosine from the branch values: per lane, the cosine branch `c` in even
/// quadrants and the sine branch `s` in odd ones, negated in quadrants 1 and 2 (mod 4).
pub fn cos_from_quadrants32<const N: usize>(q: [u32; N], s: Lanes32<N>, c: Lanes32<N>) -> (r:
    Lanes32<N>)
    ensures
        forall|i: int|
            0 <= i < N ==> signed_as32(
                r.bits[i],
                if q[i] % 2 == 0 { c.bits[i] } else { s.bits[i] },
                q[i] % 4 == 1 || q[i] % 4 == 2,
            ),
{
    let mut r = c.bits;
    let mut i: usize = 0;
    while i < N
        invariant
            0 <= i <= N,
            forall|j: int|
                0 <= j < i ==> signed_as32(
                    r[j],
                    if q[j] % 2 == 0 { c.bits[j] } else { s.bits[j] },
                    q[j] % 4 == 1 || q[j] % 4 == 2,
                ),
        decreases N - i,
    {
        r[i] = cos_lane_scalar32(q[i], s.bits[i], c.bits[i]);
        i = i + 1;
    }
    Lanes32 { bits: r }
}

/// Tangent from the branch values: per lane, `t` (the tangent of the reduced
/// argument) in even quadrants and `neg_recip` (its negated reciprocal) in odd
/// ones, with the sign of `x` combined in.
pub fn tan_from_quadrants32<const N: usize>(
    x: Lanes32<N>,
    q: [u32; N],
    t: Lanes32<N>,
    neg_recip: Lanes32<N>,
) -> (r: Lanes32<N>)
    ensures
        forall|i: int|
            0 <= i < N ==> signed_as32(
                r.bits[i],
                if q[i] % 2 == 0 { t.bits[i] } else { neg_recip.bits[i] },
                sign32(x.bits[i]),
            ),
{
    let mut r = x.bits;
    let mut i: usize = 0;
    while i < N
        invariant
            0 <= i <= N,
            forall|j: int|
                0 <= j < i ==> signed_as32(
                    r[j],
                    if q[j] % 2 == 0 { t.bits[j] } else { neg_recip.bits[j] },
                    sign32(x.bits[j]),
                ),
        decreases N - i,
    {
        let v = blend32(q[i] % 2 == 0, t.bits[i], neg_recip.bits[i]);
        r[i] = sign_combine32(v, x.bits[i]);
        i = i + 1;
    }
    Lanes32 { bits: r }
}

/// One lane of `atan2` before its quadrant fix-up: where both `y` and `x` are
/// zeros of either sign, the first-quadrant angle is `+0` (the magnitude of
/// `x ^ y`), so that the fix-up yields `+-0` or `+-pi` as IEEE prescribes; `v`
/// elsewhere.
pub open spec fn atan2_zero_lane32(y: u32, x: u32, v: u32) -> u32 {
    if mag32(y) == 0 && mag32(x) == 0 && !is_nan32(y) && !is_nan32(x) {
        0
    } else {
        v
    }
}

fn atan2_zero_scalar32(y: u32, x: u32, v: u32) -> (r: u32)
    ensures
        r == atan2_zero_lane32(y, x, v),
{
    let both = x | y;
    proof {
        assert(((x | y) & 0x7fff_ffff == 0) == (x & 0x7fff_ffff == 0 && y & 0x7fff_ffff == 0))
            by (bit_vector);
        lemma_abs_bits32(x);
        lemma_abs_bits32(y);
        lemma_abs_order32(x & 0x7fff_ffff, 0);
        lemma_abs_order32(y & 0x7fff_ffff, 0);
        lemma_abs_bits32(both);
        lemma_fields32(x);
        lemma_fields32(y);
    }
    blend32(abs32(both) == 0, 0, v)
}

/// Signed-zero correction of `atan2`: see `atan2_zero_lane32`.
pub fn atan2_zeros32<const N: usize>(y: Lanes32<N>, x: Lanes32<N>, v: Lanes32<N>) -> (r: Lanes32<
    N,
>)
    ensures
        forall|i: int|
            0 <= i < N ==> r.bits[i] == atan2_zero_lane32(y.bits[i], x.bits[i], v.bits[i]),
{
    let mut r = v.bits;
    let mut i: usize = 0;
    while i < N
        invariant
            0 <= i <= N,
            forall|j: int|
                0 <= j < i ==> r[j] == atan2_zero_lane32(y.bits[j], x.bits[j], v.bits[j]),
        decreases N - i,
    {
        r[i] = atan2_zero_scalar32(y.bits[i], x.bits[i], v.bits[i]);
        i = i + 1;
    }
    Lanes32 { bits: r }
}

/// One lane of `atan2` after its quadrant fix-up: NaN where `y` or `x` is NaN;
/// elsewhere `v` (the angle in the first quadrant) where `x` has a clear sign
/// bit and `pi_minus_v` where it is set, with the sign of `y` combined in.
pub open spec fn atan2_quadrant_lane32(y: u32, x: u32, v: u32, pi_minus_v: u32, r: u32) -> bool {
    if is_nan32(y) || is_nan32(x) {
        r == NAN32
    } else {
        signed_as32(r, if !sign32(x) { v } else { pi_minus_v }, sign32(y))
    }
}

/// Quadrant fix-up of `atan2`: see `atan2_quadrant_lane32`.
pub fn atan2_quadrants32<const N: usize>(
    y: Lanes32<N>,
    x: Lanes32<N>,
    v: Lanes32<N>,
    pi_minus_v: Lanes32<N>,
) -> (r: Lanes32<N>)
    ensures
        forall|i: int|
            0 <= i < N ==> atan2_quadrant_lane32(
                y.bits[i],
                x.bits[i],
                v.bits[i],
                pi_minus_v.bits[i],
                r.bits[i],
            ),
{
    let mut r = v.bits;
    let mut i: usize = 0;
    while i < N
        invariant
            0 <= i <= N,
            forall|j: int|
                0 <= j < i ==> atan2_quadrant_lane32(
                    y.bits[j],
                    x.bits[j],
                    v.bits[j],
                    pi_minus_v.bits[j],
                    r[j],
                ),
        decreases N - i,
    {
        let a = blend32(sign_bit32(x.bits[i]) == 0, v.bits[i], pi_minus_v.bits[i]);
        let nan_pair = nan32(y.bits[i]) || nan32(x.bits[i]);
        r[i] = blend32(nan_pair, NAN32, sign_combine32(a, y.bits[i]));
        i = i + 1;
    }
    Lanes32 { bits: r }
}

/// One lane of the reduced ratio of `atan2`: NaN where `y` or `x` is NaN,
/// `+0` where both are infinite, and the quotient `q` elsewhere.
pub open spec fn atan2_ratio_lane32(y: u32, x: u32, q: u32) -> u32 {
    if is_nan32(y) || is_nan32(x) {
        NAN32
    } else if !is_finite32(y) && !is_finite32(x) {
        0
    } else {
        q
    }
}

/// The reduced ratio of `atan2`: the quotient `q` computed for each lane, with
/// NaN lanes made NaN and lanes where both arguments are infinite set to `+0`.
pub fn atan2_ratio32<const N: usize>(y: Lanes32<N>, x: Lanes32<N>, q: Lanes32<N>) -> (r: Lanes32<N>)
    ensures
        forall|i: int|
            0 <= i < N ==> r.bits[i] == atan2_ratio_lane32(y.bits[i], x.bits[i], q.bits[i]),
{
    let mut r = q.bits;
    let mut i: usize = 0;
    while i < N
        invariant
            0 <= i <= N,
            forall|j: int| 0 <= j < i ==> r[j] == atan2_ratio_lane32(y.bits[j], x.bits[j], q.bits[j]),
        decreases N - i,
    {
        let nan_pair = nan32(y.bits[i]) || nan32(x.bits[i]);
        let infinite_pair = !finite32(y.bits[i]) && !finite32(x.bits[i]);
        r[i] = blend32(nan_pair, NAN32, blend32(infinite_pair, 0, q.bits[i]));
        i = i + 1;
    }
    Lanes32 { bits: r }
}

/// Bit pattern of the binary64 value 1e13: arguments of `sin`, `cos` and `tan`
/// at or above it in magnitude are reduced as zero.
pub const TRIG_LIMIT64: u64 = 0x42a2_309c_e540_0000;

/// The clamped magnitude of one lane: `|x|` below the limit, `+0` otherwise (NaN included).
pub open spec fn clamp_lane64(x: u64, r: u64) -> bool {
    if !is_nan64(x) && mag64(x) < mag64(TRIG_LIMIT64) {
        &&& !sign64(r)
        &&& exp64(r) == exp64(x)
        &&& man64(r) == man64(x)
    } else {
        r == 0
    }
}

/// First step of range reduction: `|x|` where it is below the limit; NaN,
/// infinite and large lanes become `+0`.
pub fn trig_clamp64<const N: usize>(x: Lanes64<N>) -> (r: Lanes64<N>)
    ensures
        forall|i: int| 0 <= i < N ==> clamp_lane64(x.bits[i], r.bits[i]),
{
    let abs_x = x.abs();
    let below = abs_x.simd_lt(Lanes64::splat(TRIG_LIMIT64));
    let zeros = Lanes64::splat(0);
    let r = below.select64(abs_x, zeros);
    proof {
        lemma_fields64(TRIG_LIMIT64);
        assert forall|i: int| 0 <= i < N implies clamp_lane64(x.bits[i], r.bits[i]) by {
            lemma_fields64(x.bits[i]);
            assert(zeros.bits[i] == 0);
        }
    }
    r
}

/// The quadrant of one lane: the magnitude of its integer value where the lane
/// is integral and below 2^63, and zero otherwise.
pub open spec fn quadrant_lane64(q: u64, r: u64) -> bool {
    if is_integral64(q) && int_mag64(q) < 0x8000_0000_0000_0000 {
        r == int_mag64(q)
    } else {
        r == 0
    }
}

/// Second step of range reduction: the rounded quadrant of each lane as an integer.
pub fn quadrants64<const N: usize>(q: Lanes64<N>) -> (r: [u64; N])
    ensures
        forall|i: int| 0 <= i < N ==> quadrant_lane64(q.bits[i], r[i]),
{
    let mut r = q.bits;
    let mut i: usize = 0;
    while i < N
        invariant
            0 <= i <= N,
            forall|j: int| 0 <= j < i ==> quadrant_lane64(q.bits[j], r[j]),
        decreases N - i,
    {
        r[i] = match small_int_mag64(q.bits[i]) {
            Some(k) => k,
            None => 0,
        };
        i = i + 1;
    }
    r
}

/// `v` with its sign flipped exactly when `flip` holds.
pub open spec fn signed_as64(r: u64, v: u64, flip: bool) -> bool {
    &&& exp64(r) == exp64(v)
    &&& man64(r) == man64(v)
    &&& sign64(r) == (sign64(v) != flip)
}

fn sin_lane_scalar64(x: u64, q: u64, s: u64, c: u64) -> (r: u64)
    ensures
        signed_as64(r, if q % 2 == 0 { s } else { c }, sign64(x) != (q % 4 >= 2)),
{
    let v = blend64(q & 1 == 0, s, c);
    let t = x ^ (q << 62);
    proof {
        assert(q & 1 == q % 2) by (bit_vector);
        assert((t >= 0x8000_0000_0000_0000) == ((x >= 0x8000_0000_0000_0000) != (q % 4 >= 2))) by (bit_vector)
            requires
                t == x ^ (q << 62),
        ;
    }
    sign_combine64(v, t)
}

/// Sine from the branch values: per lane, the sine branch `s` in even quadrants
/// and the cosine branch `c` in odd ones, negated in quadrants 2 and 3 (mod 4)
/// and once more for negative `x`.
pub fn sin_from_quadrants64<const N: usize>(
    x: Lanes64<N>,
    q: [u64; N],
    s: Lanes64<N>,
    c: Lanes64<N>,
) -> (r: Lanes64<N>)
    ensures
        forall|i: int|
            0 <= i < N ==> signed_as64(
                r.bits[i],
                if q[i] % 2 == 0 { s.bits[i] } else { c.bits[i] },
                sign64(x.bits[i]) != (q[i] % 4 >= 2),
            ),
{
    let mut r = x.bits;
    let mut i: usize = 0;
    while i < N
        invariant
            0 <= i <= N,
            forall|j: int|
                0 <= j < i ==> signed_as64(
                    r[j],
                    if q[j] % 2 == 0 { s.bits[j] } else { c.bits[j] },
                    sign64(x.bits[j]) != (q[j] % 4 >= 2),
                ),
        decreases N - i,
    {
        r[i] = sin_lane_scalar64(x.bits[i], q[i], s.bits[i], c.bits[i]);
        i = i + 1;
    }
    Lanes64 { bits: r }
}

fn cos_lane_scalar64(q: u64, s: u64, c: u64) -> (r: u64)
    ensures
        signed_as64(r, if q % 2 == 0 { c } else { s }, q % 4 == 1 || q % 4 == 2),
{
    let v = blend64(q & 1 == 0, c, s);
    let t = q.wrapping_add(1) << 62;
    proof {
        assert(q & 1 == q % 2) by (bit_vector);
        assert((t >= 0x8000_0000_0000_0000) == (q % 4 == 1 || q % 4 == 2)) by (bit_vector)
            requires
                t == (q.wrapping_add(1)) << 62,
        ;
    }
    sign_combine64(v, t)
}

/// Cosine from the branch values: per lane, the cosine branch `c` in even
/// quadrants and the sine branch `s` in odd ones, negated in quadrants 1 and 2 (mod 4).
pub fn cos_from_quadrants64<const N: usize>(q: [u64; N], s: Lanes64<N>, c: Lanes64<N>) -> (r:
    Lanes64<N>)
    ensures
        forall|i: int|
            0 <= i < N ==> signed_as64(
                r.bits[i],
                if q[i] % 2 == 0 { c.bits[i] } else { s.bits[i] },
                q[i] % 4 == 1 || q[i] % 4 == 2,
            ),
{
    let mut r = c.bits;
    let mut i: usize = 0;
    while i < N
        invariant
            0 <= i <= N,
            forall|j: int|
                0 <= j < i ==> signed_as64(
                    r[j],
                    if q[j] % 2 == 0 { c.bits[j] } else { s.bits[j] },
                    q[j] % 4 == 1 || q[j] % 4 == 2,
                ),
        decreases N - i,
    {
        r[i] = cos_lane_scalar64(q[i], s.bits[i], c.bits[i]);
        i = i + 1;
    }
    Lanes64 { bits: r }
}

/// Tangent from the branch values: per lane, `t` (the tangent of the reduced
/// argument) in even quadrants and `neg_recip` (its negated reciprocal) in odd
/// ones, with the sign of `x` combined in.
pub fn tan_from_quadrants64<const N: usize>(
    x: Lanes64<N>,
    q: [u64; N],
    t: Lanes64<N>,
    neg_recip: Lanes64<N>,
) -> (r: Lanes64<N>)
    ensures
        forall|i: int|
            0 <= i < N ==> signed_as64(
                r.bits[i],
                if q[i] % 2 == 0 { t.bits[i] } else { neg_recip.bits[i] },
                sign64(x.bits[i]),
            ),
{
    let mut r = x.bits;
    let mut i: usize = 0;
    while i < N
        invariant
            0 <= i <= N,
            forall|j: int|
                0 <= j < i ==> signed_as64(
                    r[j],
                    if q[j] % 2 == 0 { t.bits[j] } else { neg_recip.bits[j] },
                    sign64(x.bits[j]),
                ),
        decreases N - i,
    {
        let v = blend64(q[i] % 2 == 0, t.bits[i], neg_recip.bits[i]);
        r[i] = sign_combine64(v, x.bits[i]);
        i = i + 1;
    }
    Lanes64 { bits: r }
}

/// One lane of `atan2` before its quadrant fix-up: where both `y` and `x` are
/// zeros of either sign, the first-quadrant angle is `+0` (the magnitude of
/// `x ^ y`), so that the fix-up yields `+-0` or `+-pi` as IEEE prescribes; `v`
/// elsewhere.
pub open spec fn atan2_zero_lane64(y: u64, x: u64, v: u64) -> u64 {
    if mag64(y) == 0 && mag64(x) == 0 && !is_nan64(y) && !is_nan64(x) {
        0
    } else {
        v
    }
}

fn atan2_zero_scalar64(y: u64, x: u64, v: u64) -> (r: u64)
    ensures
        r == atan2_zero_lane64(y, x, v),
{
    let both = x | y;
    proof {
        assert(((x | y) & 0x7fff_ffff_ffff_ffff == 0) == (x & 0x7fff_ffff_ffff_ffff == 0 && y & 0x7fff_ffff_ffff_ffff == 0))
            by (bit_vector);
        lemma_abs_bits64(x);
        lemma_abs_bits64(y);
        lemma_abs_order64(x & 0x7fff_ffff_ffff_ffff, 0);
        lemma_abs_order64(y & 0x7fff_ffff_ffff_ffff, 0);
        lemma_abs_bits64(both);
        lemma_fields64(x);
        lemma_fields64(y);
    }
    blend64(abs64(both) == 0, 0, v)
}

/// Signed-zero correction of `atan2`: see `atan2_zero_lane64`.
pub fn atan2_zeros64<const N: usize>(y: Lanes64<N>, x: Lanes64<N>, v: Lanes64<N>) -> (r: Lanes64<
    N,
>)
    ensures
        forall|i: int|
            0 <= i < N ==> r.bits[i] == atan2_zero_lane64(y.bits[i], x.bits[i], v.bits[i]),
{
    let mut r = v.bits;
    let mut i: usize = 0;
    while i < N
        invariant
            0 <= i <= N,
            forall|j: int|
                0 <= j < i ==> r[j] == atan2_zero_lane64(y.bits[j], x.bits[j], v.bits[j]),
        decreases N - i,
    {
        r[i] = atan2_zero_scalar64(y.bits[i], x.bits[i], v.bits[i]);
        i = i + 1;
    }
    Lanes64 { bits: r }
}

/// One lane of `atan2` after its quadrant fix-up: NaN where `y` or `x` is NaN;
/// elsewhere `v` (the angle in the first quadrant) where `x` has a clear sign
/// bit and `pi_minus_v` where it is set, with the sign of `y` combined in.
pub open spec fn atan2_quadrant_lane64(y: u64, x: u64, v: u64, pi_minus_v: u64, r: u64) -> bool {
    if is_nan64(y) || is_nan64(x) {
        r == NAN64
    } else {
        signed_as64(r, if !sign64(x) { v } else { pi_minus_v }, sign64(y))
    }
}

/// Quadrant fix-up of `atan2`: see `atan2_quadrant_lane64`.
pub fn atan2_quadrants64<const N: usize>(
    y: Lanes64<N>,
    x: Lanes64<N>,
    v: Lanes64<N>,
    pi_minus_v: Lanes64<N>,
) -> (r: Lanes64<N>)
    ensures
        forall|i: int|
            0 <= i < N ==> atan2_quadrant_lane64(
                y.bits[i],
                x.bits[i],
                v.bits[i],
                pi_minus_v.bits[i],
                r.bits[i],
            ),
{
    let mut r = v.bits;
    let mut i: usize = 0;
    while i < N
        invariant
            0 <= i <= N,
            forall|j: int|
                0 <= j < i ==> atan2_quadrant_lane64(
                    y.bits[j],
                    x.bits[j],
                    v.bits[j],
                    pi_minus_v.bits[j],
                    r[j],
                ),
        decreases N - i,
    {
        let a = blend64(sign_bit64(x.bits[i]) == 0, v.bits[i], pi_minus_v.bits[i]);
        let nan_pair = nan64(y.bits[i]) || nan64(x.bits[i]);
        r[i] = blend64(nan_pair, NAN64, sign_combine64(a, y.bits[i]));
        i = i + 1;
    }
    Lanes64 { bits: r }
}

/// One lane of the reduced ratio of `atan2`: NaN where `y` or `x` is NaN,
/// `+0` where both are infinite, and the quotient `q` elsewhere.
pub open spec fn atan2_ratio_lane64(y: u64, x: u64, q: u64) -> u64 {
    if is_nan64(y) || is_nan64(x) {
        NAN64
    } else if !is_finite64(y) && !is_finite64(x) {
        0
    } else {
        q
    }
}

/// The reduced ratio of `atan2`: the quotient `q` computed for each lane, with
/// NaN lanes made NaN and lanes where both arguments are infinite set to `+0`.
pub fn atan2_ratio64<const N: usize>(y: Lanes64<N>, x: Lanes64<N>, q: Lanes64<N>) -> (r: Lanes64<N>)
    ensures
        forall|i: int|
            0 <= i < N ==> r.bits[i] == atan2_ratio_lane64(y.bits[i], x.bits[i], q.bits[i]),
{
    let mut r = q.bits;
    let mut i: usize = 0;
    while i < N
        invariant
            0 <= i <= N,
            forall|j: int| 0 <= j < i ==> r[j] == atan2_ratio_lane64(y.bits[j], x.bits[j], q.bits[j]),
        decreases N - i,
    {
        let nan_pair = nan64(y.bits[i]) || nan64(x.bits[i]);
        let infinite_pair = !finite64(y.bits[i]) && !finite64(x.bits[i]);
        r[i] = blend64(nan_pair, NAN64, blend64(infinite_pair, 0, q.bits[i]));
        i = i + 1;
    }
    Lanes64 { bits: r }
}

/// Bit pattern of the binary32 value nearest `sqrt(2) + 1 = tan(3 pi / 8)`.
pub const TAN_3PI_8_32: u32 = 0x401a_827a;

/// Bit pattern of the binary32 value nearest `sqrt(2) - 1 = tan(pi / 8)`.
pub const TAN_PI_8_32: u32 = 0x3ed4_13cc;

/// Bit pattern of the binary32 value nearest `pi / 4`.
pub const FRAC_PI_4_32: u32 = 0x3f49_0fdb;

/// Bit pattern of the binary32 value nearest `pi / 2`.
pub const FRAC_PI_2_32: u32 = 0x3fc9_0fdb;

/// Bit pattern of the binary32 value 0.5.
pub const HALF32: u32 = 0x3f00_0000;

/// Where `asin` folds its argument: lanes with `|x| >= 0.5` (NaN excluded).
pub fn asin_fold32<const N: usize>(x: Lanes32<N>) -> (r: Mask<N>)
    ensures
        forall|i: int|
            0 <= i < N ==> r.lanes[i] == (!is_nan32(x.bits[i]) && mag32(x.bits[i]) >= mag32(HALF32)),
{
    let a = x.abs();
    let r = a.simd_ge(Lanes32::splat(HALF32));
    proof {
        assert forall|i: int| 0 <= i < N implies r.lanes[i] == (!is_nan32(x.bits[i]) && mag32(
            x.bits[i],
        ) >= mag32(HALF32)) by {
            lemma_fields32(x.bits[i]);
            lemma_fields32(a.bits[i]);
            lemma_abs_order32(a.bits[i], HALF32);
        }
    }
    r
}

/// Domain split of `atan` on `|t|`: the first mask holds where `|t| <= tan(3 pi / 8)`
/// (the argument is not big), the second where `|t| >= tan(pi / 8)` (it is not
/// small). NaN lanes are in neither.
pub fn atan_split32<const N: usize>(abs_t: Lanes32<N>) -> (r: (Mask<N>, Mask<N>))
    ensures
        forall|i: int|
            0 <= i < N ==> r.0.lanes[i] == (lt32(abs_t.bits[i], TAN_3PI_8_32) || eq32(
                abs_t.bits[i],
                TAN_3PI_8_32,
            )),
        forall|i: int|
            0 <= i < N ==> r.1.lanes[i] == (lt32(TAN_PI_8_32, abs_t.bits[i]) || eq32(
                TAN_PI_8_32,
                abs_t.bits[i],
            )),
{
    (abs_t.simd_le(Lanes32::splat(TAN_3PI_8_32)), abs_t.simd_ge(Lanes32::splat(TAN_PI_8_32)))
}

/// The angle that the reduction of `atan` took off: `pi/4` for the middle
/// range, `pi/2` for big arguments, `0` for small ones.
pub fn atan_offset32<const N: usize>(not_big: Mask<N>, not_small: Mask<N>) -> (r: Lanes32<N>)
    ensures
        forall|i: int|
            0 <= i < N ==> r.bits[i] == if !not_small.lanes[i] {
                0
            } else if not_big.lanes[i] {
                FRAC_PI_4_32
            } else {
                FRAC_PI_2_32
            },
{
    let wide = not_big.select32(Lanes32::splat(FRAC_PI_4_32), Lanes32::splat(FRAC_PI_2_32));
    not_small.select32(wide, Lanes32::splat(0))
}

/// Bit pattern of the binary64 value nearest `sqrt(2) + 1 = tan(3 pi / 8)`.
pub const TAN_3PI_8_64: u64 = 0x4003_504f_333f_9de6;

/// Bit pattern of the binary64 value nearest `sqrt(2) - 1 = tan(pi / 8)`.
pub const TAN_PI_8_64: u64 = 0x3fda_8279_99fc_ef34;

/// Bit pattern of the binary64 value nearest `pi / 4`.
pub const FRAC_PI_4_64: u64 = 0x3fe9_21fb_5444_2d18;

/// Bit pattern of the binary64 value nearest `pi / 2`.
pub const FRAC_PI_2_64: u64 = 0x3ff9_21fb_5444_2d18;

/// Bit pattern of the binary64 value 0.5.
pub const HALF64: u64 = 0x3fe0_0000_0000_0000;

/// Where `asin` folds its argument: lanes with `|x| >= 0.5` (NaN excluded).
pub fn asin_fold64<const N: usize>(x: Lanes64<N>) -> (r: Mask<N>)
    ensures
        forall|i: int|
            0 <= i < N ==> r.lanes[i] == (!is_nan64(x.bits[i]) && mag64(x.bits[i]) >= mag64(HALF64)),
{
    let a = x.abs();
    let r = a.simd_ge(Lanes64::splat(HALF64));
    proof {
        assert forall|i: int| 0 <= i < N implies r.lanes[i] == (!is_nan64(x.bits[i]) && mag64(
            x.bits[i],
        ) >= mag64(HALF64)) by {
            lemma_fields64(x.bits[i]);
            lemma_fields64(a.bits[i]);
            lemma_abs_order64(a.bits[i], HALF64);
        }
    }
    r
}

/// Domain split of `atan` on `|t|`: the first mask holds where `|t| <= tan(3 pi / 8)`
/// (the argument is not big), the second where `|t| >= tan(pi / 8)` (it is not
/// small). NaN lanes are in neither.
pub fn atan_split64<const N: usize>(abs_t: Lanes64<N>) -> (r: (Mask<N>, Mask<N>))
    ensures
        forall|i: int|
            0 <= i < N ==> r.0.lanes[i] == (lt64(abs_t.bits[i], TAN_3PI_8_64) || eq64(
                abs_t.bits[i],
                TAN_3PI_8_64,
            )),
        forall|i: int|
            0 <= i < N ==> r.1.lanes[i] == (lt64(TAN_PI_8_64, abs_t.bits[i]) || eq64(
                TAN_PI_8_64,
                abs_t.bits[i],
            )),
{
    (abs_t.simd_le(Lanes64::splat(TAN_3PI_8_64)), abs_t.simd_ge(Lanes64::splat(TAN_PI_8_64)))
}

/// The angle that the reduction of `atan` took off: `pi/4` for the middle
/// range, `pi/2` for big arguments, `0` for small ones.
pub fn atan_offset64<const N: usize>(not_big: Mask<N>, not_small: Mask<N>) -> (r: Lanes64<N>)
    ensures
        forall|i: int|
            0 <= i < N ==> r.bits[i] == if !not_small.lanes[i] {
                0
            } else if not_big.lanes[i] {
                FRAC_PI_4_64
            } else {
                FRAC_PI_2_64
            },
{
    let wide = not_big.select64(Lanes64::splat(FRAC_PI_4_64), Lanes64::splat(FRAC_PI_2_64));
    not_small.select64(wide, Lanes64::splat(0))
}

} // verus!
