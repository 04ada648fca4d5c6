//! The exponential family: the bit-level steps of `exp`, `exp2` and `exp_m1`.
//!
//! The polynomial core is evaluated in floating point by the caller; this module
//! builds the power of two that scales it and decides, lane by lane, which
//! lanes keep the approximation and which take a limiting value.
use crate::ieee::{
    is_nan32, is_nan64, lemma_compose32, lemma_compose64, lemma_fields32, lemma_fields64, mag32,
    mag64, sign32, sign64,
};
use crate::integral::{
    int_mag32, int_mag64, is_integral32, is_integral64, small_int_mag32, small_int_mag64,
};
use crate::lanes::{Lanes32, Lanes64};
use vstd::arithmetic::power2::*;
use vstd::prelude::*;

verus! {

/// Functions of the exponential family, lane by lane.
pub trait Exponent {
    /// `e^x` of each lane.
    fn exp(self) -> Self;

    /// `2^x` of each lane.
    fn exp2(self) -> Self;

    /// `e^x - 1` of each lane.
    fn exp_m1(self) -> Self;
}

/// Bit pattern of the binary32 value 88.0, the largest argument of `exp` and `exp_m1`.
pub const EXP_LIMIT32: u32 = 0x42b0_0000;

/// Bit pattern of the binary32 value 127.0, the largest argument of `exp2`.
pub const EXP2_LIMIT32: u32 = 0x42fe_0000;

/// Bit pattern of the binary32 quiet NaN.
pub const NAN32: u32 = 0x7fc0_0000;

/// Bit pattern of binary32 positive infinity.
pub const INF32: u32 = 0x7f80_0000;

/// Bit pattern of the binary32 value -1.0.
pub const MINUS_ONE32: u32 = 0xbf80_0000;

/// The signed integer value of an integral pattern.
pub open spec fn int_value32(b: u32) -> int {
    if sign32(b) {
        -int_mag32(b)
    } else {
        int_mag32(b) as int
    }
}

/// `2^n` for one lane: the pattern with biased exponent `n + 127` and no mantissa.
pub open spec fn pow2i_lane32(n: u32, r: u32) -> bool {
    if is_integral32(n) && -127 <= int_value32(n) <= 128 {
        &&& r as int == (int_value32(n) + 127) * 0x80_0000
        &&& -126 <= int_value32(n) <= 127 ==> !sign32(r) && mag32(r) == pow2(
            (int_value32(n) + 149) as nat,
        )
    } else {
        r == NAN32
    }
}

fn pow2i_scalar32(n: u32) -> (r: u32)
    ensures
        pow2i_lane32(n, r),
{
    match small_int_mag32(n) {
        Some(k) => {
            let neg = n >= 0x8000_0000;
            if (neg && k <= 127) || (!neg && k <= 128) {
                let biased: u32 = if neg {
                    127 - k
                } else {
                    127 + k
                };
                proof {
                    lemma2_to64();
                    if 1 <= biased <= 254 {
                        lemma_compose32((biased * 0x80_0000) as u32, false, biased as nat, 0);
                        lemma_pow2_adds(23, (biased - 1) as nat);
                    }
                }
                biased * 0x80_0000
            } else {
                NAN32
            }
        },
        None => NAN32,
    }
}

/// `2^n` of each lane whose value is an integer `n` in `[-127, 128]`, built
/// directly in the exponent field: exact for `n` in `[-126, 127]`, `+0.0` for
/// `-127` and `+inf` for `128`. Other lanes give NaN.
pub fn pow2i32<const N: usize>(n: Lanes32<N>) -> (r: Lanes32<N>)
    ensures
        forall|i: int| 0 <= i < N ==> pow2i_lane32(n.bits[i], r.bits[i]),
{
    let mut r = n.bits;
    let mut i: usize = 0;
    while i < N
        invariant
            0 <= i <= N,
            forall|j: int| 0 <= j < i ==> pow2i_lane32(n.bits[j], r[j]),
        decreases N - i,
    {
        r[i] = pow2i_scalar32(n.bits[i]);
        i = i + 1;
    }
    Lanes32 { bits: r }
}

/// The final value of one lane of an exponential-family function.
pub open spec fn exp_special_lane32(x: u32, approx: u32, limit: u32, neg_limit: u32) -> u32 {
    if !is_nan32(x) && mag32(x) <= mag32(limit) {
        approx
    } else if is_nan32(x) {
        NAN32
    } else if !sign32(x) {
        INF32
    } else {
        neg_limit
    }
}

/// Overflow and special-value handling: lanes with `|x| <= limit` keep `approx`;
/// the others become NaN where `x` is NaN, `+inf` where `x` is positive, and
/// `neg_limit` (the function's value at `-inf`) where `x` is negative.
/// `limit` is a finite non-negative value. When every lane is in range the
/// approximation is returned as it is.
pub fn exp_special32<const N: usize>(
    x: Lanes32<N>,
    approx: Lanes32<N>,
    limit: u32,
    neg_limit: u32,
) -> (r: Lanes32<N>)
    requires
        limit < 0x7f80_0000,
    ensures
        forall|i: int|
            0 <= i < N ==> r.bits[i] == exp_special_lane32(
                x.bits[i],
                approx.bits[i],
                limit,
                neg_limit,
            ),
{
    let in_range = x.abs().simd_le(Lanes32::splat(limit));
    proof {
        lemma_fields32(limit);
        assert forall|i: int| 0 <= i < N implies in_range.lanes[i] == (!is_nan32(x.bits[i])
            && mag32(x.bits[i]) <= mag32(limit)) by {
            lemma_fields32(x.bits[i]);
        }
    }
    if in_range.all() {
        assert forall|i: int| 0 <= i < N implies approx.bits[i] == exp_special_lane32(
            x.bits[i],
            approx.bits[i],
            limit,
            neg_limit,
        ) by {
            assert(in_range.lanes[i]);
        }
        approx
    } else {
        let inf_or_limit = x.is_sign_positive().select32(
            Lanes32::splat(INF32),
            Lanes32::splat(neg_limit),
        );
        let nans = Lanes32::splat(NAN32);
        let special = x.is_nan().select32(nans, inf_or_limit);
        let r = in_range.select32(approx, special);
        assert forall|i: int| 0 <= i < N implies r.bits[i] == exp_special_lane32(
            x.bits[i],
            approx.bits[i],
            limit,
            neg_limit,
        ) by {
            assert(nans.bits[i] == NAN32);
        }
        r
    }
}

/// Bit pattern of the binary64 value 709.0, the largest argument of `exp` and `exp_m1`.
pub const EXP_LIMIT64: u64 = 0x4086_2800_0000_0000;

/// Bit pattern of the binary64 value 1023.0, the largest argument of `exp2`.
pub const EXP2_LIMIT64: u64 = 0x408f_f800_0000_0000;

/// Bit pattern of the binary64 quiet NaN.
pub const NAN64: u64 = 0x7ff8_0000_0000_0000;

/// Bit pattern of binary64 positive infinity.
pub const INF64: u64 = 0x7ff0_0000_0000_0000;

/// Bit pattern of the binary64 value -1.0.
pub const MINUS_ONE64: u64 = 0xbff0_0000_0000_0000;

/// The signed integer value of an integral pattern.
pub open spec fn int_value64(b: u64) -> int {
    if sign64(b) {
        -int_mag64(b)
    } else {
        int_mag64(b) as int
    }
}

/// `2^n` for one lane: the pattern with biased exponent `n + 1023` and no mantissa.
pub open spec fn pow2i_lane64(n: u64, r: u64) -> bool {
    if is_integral64(n) && -1023 <= int_value64(n) <= 1024 {
        &&& r as int == (int_value64(n) + 1023) * 0x10_0000_0000_0000
        &&& -1022 <= int_value64(n) <= 1023 ==> !sign64(r) && mag64(r) == pow2(
            (int_value64(n) + 1074) as nat,
        )
    } else {
        r == NAN64
    }
}

fn pow2i_scalar64(n: u64) -> (r: u64)
    ensures
        pow2i_lane64(n, r),
{
    match small_int_mag64(n) {
        Some(k) => {
            let neg = n >= 0x8000_0000_0000_0000;
            if (neg && k <= 1023) || (!neg && k <= 1024) {
                let biased: u64 = if neg {
                    1023 - k
                } else {
                    1023 + k
                };
                proof {
                    lemma2_to64();
                    lemma2_to64_rest();
                    if 1 <= biased <= 2046 {
                        lemma_compose64((biased * 0x10_0000_0000_0000) as u64, false, biased as nat, 0);
                        lemma_pow2_adds(52, (biased - 1) as nat);
                    }
                }
                biased * 0x10_0000_0000_0000
            } else {
                NAN64
            }
        },
        None => NAN64,
    }
}

/// `2^n` of each lane whose value is an integer `n` in `[-1023, 1024]`, built
/// directly in the exponent field: exact for `n` in `[-1022, 1023]`, `+0.0` for
/// `-1023` and `+inf` for `1024`. Other lanes give NaN.
pub fn pow2i64<const N: usize>(n: Lanes64<N>) -> (r: Lanes64<N>)
    ensures
        forall|i: int| 0 <= i < N ==> pow2i_lane64(n.bits[i], r.bits[i]),
{
    let mut r = n.bits;
    let mut i: usize = 0;
    while i < N
        invariant
            0 <= i <= N,
            forall|j: int| 0 <= j < i ==> pow2i_lane64(n.bits[j], r[j]),
        decreases N - i,
    {
        r[i] = pow2i_scalar64(n.bits[i]);
        i = i + 1;
    }
    Lanes64 { bits: r }
}

/// The final value of one lane of an exponential-family function.
pub open spec fn exp_special_lane64(x: u64, approx: u64, limit: u64, neg_limit: u64) -> u64 {
    if !is_nan64(x) && mag64(x) <= mag64(limit) {
        approx
    } else if is_nan64(x) {
        NAN64
    } else if !sign64(x) {
        INF64
    } else {
        neg_limit
    }
}

/// Overflow and special-value handling: lanes with `|x| <= limit` keep `approx`;
/// the others become NaN where `x` is NaN, `+inf` where `x` is positive, and
/// `neg_limit` (the function's value at `-inf`) where `x` is negative.
/// `limit` is a finite non-negative value. When every lane is in range the
/// approximation is returned as it is.
pub fn exp_special64<const N: usize>(
    x: Lanes64<N>,
    approx: Lanes64<N>,
    limit: u64,
    neg_limit: u64,
) -> (r: Lanes64<N>)
    requires
        limit < 0x7ff0_0000_0000_0000,
    ensures
        forall|i: int|
            0 <= i < N ==> r.bits[i] == exp_special_lane64(
                x.bits[i],
                approx.bits[i],
                limit,
                neg_limit,
            ),
{
    let in_range = x.abs().simd_le(Lanes64::splat(limit));
    proof {
        lemma_fields64(limit);
        assert forall|i: int| 0 <= i < N implies in_range.lanes[i] == (!is_nan64(x.bits[i])
            && mag64(x.bits[i]) <= mag64(limit)) by {
            lemma_fields64(x.bits[i]);
        }
    }
    if in_range.all() {
        assert forall|i: int| 0 <= i < N implies approx.bits[i] == exp_special_lane64(
            x.bits[i],
            approx.bits[i],
            limit,
            neg_limit,
        ) by {
            assert(in_range.lanes[i]);
        }
        approx
    } else {
        let inf_or_limit = x.is_sign_positive().select64(
            Lanes64::splat(INF64),
            Lanes64::splat(neg_limit),
        );
        let nans = Lanes64::splat(NAN64);
        let special = x.is_nan().select64(nans, inf_or_limit);
        let r = in_range.select64(approx, special);
        assert forall|i: int| 0 <= i < N implies r.bits[i] == exp_special_lane64(
            x.bits[i],
            approx.bits[i],
            limit,
            neg_limit,
        ) by {
            assert(nans.bits[i] == NAN64);
        }
        r
    }
}

} // verus!
