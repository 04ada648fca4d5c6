//! Rounding to an integer, ties to even, on bit patterns.
//!
//! The value of a finite pattern is `scaled_mag / 2^sc` for a fixed scale `sc`
//! (149 for binary32, 1074 for binary64), so rounding it to an integer is
//! rounding a natural number at `sc` binary places: `round_half_even`.
use crate::ieee::{
    abs32, abs64, exp32, exp64, is_finite32, is_finite64, is_inf32, is_inf64, is_nan32,
    is_nan64, lemma_compose32, lemma_compose64, lemma_fields32, lemma_fields64,
    lemma_scaled_divmod, lemma_scaled_mag_bounds, lemma_scaled_mag_order, mag32, mag64, man32,
    man64, scaled_mag, sign32, sign64, significand,
};
use vstd::arithmetic::mul::*;
use vstd::arithmetic::power2::*;
use vstd::prelude::*;

verus! {

/// Nearest integer to `n / 2^d`, ties to the even one.
pub open spec fn round_half_even(n: nat, d: nat) -> nat {
    let q = n / pow2(d);
    let r = n % pow2(d);
    if 2 * r > pow2(d) || (2 * r == pow2(d) && q % 2 == 1) {
        q + 1
    } else {
        q
    }
}

/// A multiple of `2^d` is its own rounding.
pub proof fn lemma_round_exact(n: nat, d: nat)
    requires
        n % pow2(d) == 0,
    ensures
        round_half_even(n, d) * pow2(d) == n,
{
    lemma_pow2_pos(d);
    vstd::arithmetic::div_mod::lemma_fundamental_div_mod(n as int, pow2(d) as int);
    lemma_mul_is_commutative(pow2(d) as int, (n / pow2(d)) as int);
}

/// Below one half, at one half, and between one half and one.
pub proof fn lemma_round_below_one(n: nat, d: nat)
    requires
        d >= 1,
        n < pow2(d),
    ensures
        n <= pow2((d - 1) as nat) ==> round_half_even(n, d) == 0,
        n > pow2((d - 1) as nat) ==> round_half_even(n, d) == 1,
{
    lemma_pow2_unfold(d);
    vstd::arithmetic::div_mod::lemma_small_mod(n, pow2(d));
    assert(n / pow2(d) == 0) by {
        vstd::arithmetic::div_mod::lemma_basic_div(n as int, pow2(d) as int);
    }
}

/// Rounding `n * 2^a` at `a + d` bits is rounding `n` at `d` bits.
pub proof fn lemma_round_scale(n: nat, a: nat, d: nat)
    ensures
        round_half_even(n * pow2(a), a + d) == round_half_even(n, d),
{
    let pa = pow2(a);
    let pd = pow2(d);
    let r = n % pd;
    lemma_pow2_pos(a);
    lemma_pow2_adds(a, d);
    lemma_scaled_divmod(n, a, d);
    assert((2 * r > pd) == (2 * (r * pa) > pa * pd)) by (nonlinear_arith)
        requires
            pa > 0,
    ;
    assert((2 * r == pd) == (2 * (r * pa) == pa * pd)) by (nonlinear_arith)
        requires
            pa > 0,
    ;
}


/// Rounding a significand at `d <= mw` bits gives a multiple of `2^d` in `[2^mw, 2^(mw+1)]`.
pub proof fn lemma_round_range(sig: nat, mw: nat, d: nat)
    requires
        pow2(mw) <= sig < pow2(mw + 1),
        d <= mw,
    ensures
        pow2(mw) <= round_half_even(sig, d) * pow2(d) <= pow2(mw + 1),
{
    let p = pow2(d);
    lemma_pow2_pos(d);
    let q = sig / p;
    let r = sig % p;
    vstd::arithmetic::div_mod::lemma_fundamental_div_mod(sig as int, p as int);
    vstd::arithmetic::div_mod::lemma_mod_bound(sig as int, p as int);
    let lo = pow2((mw - d) as nat);
    let hi = pow2((mw + 1 - d) as nat);
    lemma_pow2_adds((mw - d) as nat, d);
    lemma_pow2_adds((mw + 1 - d) as nat, d);
    assert(pow2(mw) == lo * p);
    assert(pow2(mw + 1) == hi * p);
    // lo <= q: otherwise q * p + r < lo * p
    if q < lo {
        assert(q * p + r < lo * p) by (nonlinear_arith)
            requires
                q + 1 <= lo,
                r < p,
        ;
        lemma_mul_is_commutative(p as int, q as int);
    }
    // q < hi: otherwise q * p >= hi * p > sig
    if q >= hi {
        lemma_mul_inequality(hi as int, q as int, p as int);
        lemma_mul_is_commutative(p as int, q as int);
    }
    lemma_mul_inequality(lo as int, q as int, p as int);
    lemma_mul_inequality((q + 1) as int, hi as int, p as int);
    lemma_mul_inequality(q as int, (q + 1) as int, p as int);
    lemma_mul_is_commutative(p as int, q as int);
}

/// `r` is `b` rounded to an integer, ties to even; NaN stays NaN and infinities stay.
pub open spec fn rounds_to32(b: u32, r: u32) -> bool {
    if is_nan32(b) {
        is_nan32(r)
    } else if is_inf32(b) {
        r == b
    } else {
        &&& is_finite32(r)
        &&& sign32(r) == sign32(b)
        &&& mag32(r) == round_half_even(mag32(b), 149) * pow2(149)
    }
}

/// Rounding a value with no fractional bits gives it back.
pub proof fn lemma_round_integral(e: nat, m: nat, mw: nat, sc: nat)
    requires
        e > sc,
    ensures
        round_half_even(scaled_mag(e, m, mw), sc) * pow2(sc) == scaled_mag(e, m, mw),
{
    let x = (e - 1 - sc) as nat;
    let sig = significand(e, m, mw);
    lemma_pow2_adds(sc, x);
    lemma_pow2_pos(sc);
    assert(((e - 1) as nat) == sc + x);
    lemma_mul_is_associative(sig as int, pow2(x) as int, pow2(sc) as int);
    lemma_mul_is_commutative(pow2(x) as int, pow2(sc) as int);
    vstd::arithmetic::div_mod::lemma_mod_multiples_basic((sig * pow2(x)) as int, pow2(sc) as int);
    lemma_round_exact(scaled_mag(e, m, mw), sc);
}

/// A magnitude below one half rounds to zero.
pub proof fn lemma_round_tiny(e: nat, m: nat, mw: nat, sc: nat)
    requires
        m < pow2(mw),
        e + mw < sc,
    ensures
        round_half_even(scaled_mag(e, m, mw), sc) == 0,
{
    lemma_scaled_mag_bounds(e, m, mw);
    if e + mw < sc - 1 {
        lemma_pow2_strictly_increases(e + mw, (sc - 1) as nat);
    }
    lemma_pow2_strictly_increases((sc - 1) as nat, sc);
    lemma_round_below_one(scaled_mag(e, m, mw), sc);
}

/// A magnitude in `[1/2, 1)` rounds to zero at one half and to one above it.
pub proof fn lemma_round_half(e: nat, m: nat, mw: nat, sc: nat)
    requires
        m < pow2(mw),
        e >= 1,
        e + mw == sc,
    ensures
        round_half_even(scaled_mag(e, m, mw), sc) == if m == 0 { 0nat } else { 1nat },
{
    lemma_scaled_mag_bounds(e, m, mw);
    lemma_round_below_one(scaled_mag(e, m, mw), sc);
    let p = pow2((e - 1) as nat);
    lemma_pow2_pos((e - 1) as nat);
    lemma_pow2_adds(mw, (e - 1) as nat);
    if m > 0 {
        lemma_mul_strict_inequality(pow2(mw) as int, (m + pow2(mw)) as int, p as int);
    }
}

/// Rounding a normal magnitude with `d` fractional bits: the rounded significand
/// `k * 2^d` lies in `[2^mw, 2^(mw+1)]`, and re-encoding it gives `k`.
pub proof fn lemma_round_fraction(e: nat, m: nat, mw: nat, sc: nat, d: nat, k: nat)
    requires
        m < pow2(mw),
        e >= 1,
        e + mw > sc,
        e <= sc,
        d == sc + 1 - e,
        k == round_half_even(m + pow2(mw), d),
    ensures
        round_half_even(scaled_mag(e, m, mw), sc) == k,
        pow2(mw) <= k * pow2(d) <= pow2(mw + 1),
        k * pow2(d) < pow2(mw + 1) ==> scaled_mag(e, (k * pow2(d) - pow2(mw)) as nat, mw) == k
            * pow2(sc),
        k * pow2(d) == pow2(mw + 1) ==> scaled_mag(e + 1, 0, mw) == k * pow2(sc),
{
    let sig = (m + pow2(mw)) as nat;
    let p = pow2(d);
    let pe = pow2((e - 1) as nat);
    lemma_pow2_unfold(mw + 1);
    lemma_round_range(sig, mw, d);
    lemma_round_scale(sig, (e - 1) as nat, d);
    assert((e - 1) + d == sc);
    lemma_pow2_adds(d, (e - 1) as nat);
    lemma_mul_is_associative(k as int, p as int, pe as int);
    if k * p == pow2(mw + 1) {
        lemma_pow2_unfold(e);
        lemma_mul_is_associative(pow2(mw) as int, 2, pe as int);
    }
}

/// Rounds a pattern to the nearest integer, ties to even.
pub fn round32(b: u32) -> (r: u32)
    ensures
        rounds_to32(b, r),
{
    let a = abs32(b);
    let s: u32 = b - a;
    let e: u32 = a / 0x80_0000;
    let m: u32 = a % 0x80_0000;
    proof {
        lemma_fields32(b);
        lemma2_to64();
        assert(pow2(24) == 0x100_0000);
        assert(e == exp32(b) && m == man32(b));
        assert(s == if sign32(b) { 0x8000_0000u32 } else { 0 });
    }
    if e >= 150 {
        proof {
            if e < 0xff {
                lemma_round_integral(e as nat, m as nat, 23, 149);
            }
            assert(rounds_to32(b, b));
        }
        b
    } else if e < 126 || (e == 126 && m == 0) {
        proof {
            if e < 126 {
                lemma_round_tiny(e as nat, m as nat, 23, 149);
            } else {
                lemma_round_half(e as nat, m as nat, 23, 149);
            }
            lemma_compose32(s, sign32(b), 0, 0);
            assert(scaled_mag(0, 0, 23) == 0);
            assert(rounds_to32(b, s));
        }
        s
    } else if e == 126 {
        proof {
            lemma_round_half(e as nat, m as nat, 23, 149);
            lemma_compose32((s + 0x3f80_0000) as u32, sign32(b), 127, 0);
            lemma_pow2_adds(23, 126);
            assert(mag32((s + 0x3f80_0000) as u32) == pow2(23) * pow2(126));
            assert(rounds_to32(b, (s + 0x3f80_0000) as u32));
        }
        s + 0x3f80_0000
    } else {
        let d: u32 = 150 - e;
        proof {
            vstd::bits::lemma_u32_shl_is_mul(1, d);
            vstd::bits::lemma_u32_pow2_no_overflow(d as nat);
            if d < 23 {
                lemma_pow2_strictly_increases(d as nat, 23);
            }
        }
        let p: u32 = 1u32 << d;
        let sig: u32 = m + 0x80_0000;
        let q: u32 = sig / p;
        let rem: u32 = sig % p;
        let k: u32 = if 2 * rem > p || (2 * rem == p && q % 2 == 1) {
            q + 1
        } else {
            q
        };
        proof {
            assert(k == round_half_even(sig as nat, d as nat));
            lemma_round_fraction(e as nat, m as nat, 23, 149, d as nat, k as nat);
        }
        let t: u32 = k * p;
        if t == 0x100_0000 {
            proof {
                lemma_compose32((s + (e + 1) * 0x80_0000) as u32, sign32(b), (e + 1) as nat, 0);
                assert(rounds_to32(b, (s + (e + 1) * 0x80_0000) as u32));
            }
            s + (e + 1) * 0x80_0000
        } else {
            proof {
                lemma_compose32(
                    (s + e * 0x80_0000 + (t - 0x80_0000)) as u32,
                    sign32(b),
                    e as nat,
                    (t - 0x80_0000) as nat,
                );
                assert(rounds_to32(b, (s + e * 0x80_0000 + (t - 0x80_0000)) as u32));
            }
            s + e * 0x80_0000 + (t - 0x80_0000)
        }
    }
}

/// `r` is `b` rounded to an integer, ties to even; NaN stays NaN and infinities stay.
pub open spec fn rounds_to64(b: u64, r: u64) -> bool {
    if is_nan64(b) {
        is_nan64(r)
    } else if is_inf64(b) {
        r == b
    } else {
        &&& is_finite64(r)
        &&& sign64(r) == sign64(b)
        &&& mag64(r) == round_half_even(mag64(b), 1074) * pow2(1074)
    }
}

/// Rounds a pattern to the nearest integer, ties to even.
pub fn round64(b: u64) -> (r: u64)
    ensures
        rounds_to64(b, r),
{
    let a = abs64(b);
    let s: u64 = b - a;
    let e: u64 = a / 0x10_0000_0000_0000;
    let m: u64 = a % 0x10_0000_0000_0000;
    proof {
        lemma_fields64(b);
        lemma2_to64();
        lemma2_to64_rest();
        assert(pow2(53) == 0x20_0000_0000_0000);
        assert(e == exp64(b) && m == man64(b));
        assert(s == if sign64(b) { 0x8000_0000_0000_0000u64 } else { 0 });
    }
    if e >= 1075 {
        proof {
            if e < 0x7ff {
                lemma_round_integral(e as nat, m as nat, 52, 1074);
            }
            assert(rounds_to64(b, b));
        }
        b
    } else if e < 1022 || (e == 1022 && m == 0) {
        proof {
            if e < 1022 {
                lemma_round_tiny(e as nat, m as nat, 52, 1074);
            } else {
                lemma_round_half(e as nat, m as nat, 52, 1074);
            }
            lemma_compose64(s, sign64(b), 0, 0);
            assert(scaled_mag(0, 0, 52) == 0);
            assert(rounds_to64(b, s));
        }
        s
    } else if e == 1022 {
        proof {
            lemma_round_half(e as nat, m as nat, 52, 1074);
            lemma_compose64((s + 0x3ff0_0000_0000_0000) as u64, sign64(b), 1023, 0);
            lemma_pow2_adds(52, 1022);
            assert(mag64((s + 0x3ff0_0000_0000_0000) as u64) == pow2(52) * pow2(1022));
            assert(rounds_to64(b, (s + 0x3ff0_0000_0000_0000) as u64));
        }
        s + 0x3ff0_0000_0000_0000
    } else {
        let d: u64 = 1075 - e;
        proof {
            vstd::bits::lemma_u64_shl_is_mul(1, d);
            vstd::bits::lemma_u64_pow2_no_overflow(d as nat);
            if d < 52 {
                lemma_pow2_strictly_increases(d as nat, 52);
            }
        }
        let p: u64 = 1u64 << d;
        let sig: u64 = m + 0x10_0000_0000_0000;
        let q: u64 = sig / p;
        let rem: u64 = sig % p;
        let k: u64 = if 2 * rem > p || (2 * rem == p && q % 2 == 1) {
            q + 1
        } else {
            q
        };
        proof {
            assert(k == round_half_even(sig as nat, d as nat));
            lemma_round_fraction(e as nat, m as nat, 52, 1074, d as nat, k as nat);
        }
        let t: u64 = k * p;
        if t == 0x20_0000_0000_0000 {
            proof {
                lemma_compose64((s + (e + 1) * 0x10_0000_0000_0000) as u64, sign64(b), (e + 1) as nat, 0);
                assert(rounds_to64(b, (s + (e + 1) * 0x10_0000_0000_0000) as u64));
            }
            s + (e + 1) * 0x10_0000_0000_0000
        } else {
            proof {
                lemma_compose64(
                    (s + e * 0x10_0000_0000_0000 + (t - 0x10_0000_0000_0000)) as u64,
                    sign64(b),
                    e as nat,
                    (t - 0x10_0000_0000_0000) as nat,
                );
                assert(rounds_to64(b, (s + e * 0x10_0000_0000_0000 + (t - 0x10_0000_0000_0000)) as u64));
            }
            s + e * 0x10_0000_0000_0000 + (t - 0x10_0000_0000_0000)
        }
    }
}

/// Rounding is idempotent: a rounded value rounds to itself (a NaN to a NaN).
pub proof fn lemma_round_idempotent32(b: u32, r: u32, r2: u32)
    requires
        rounds_to32(b, r),
        rounds_to32(r, r2),
    ensures
        is_nan32(b) ==> is_nan32(r2),
        !is_nan32(b) ==> r2 == r,
{
    lemma_fields32(r);
    lemma_fields32(r2);
    if !is_nan32(b) && !is_inf32(b) {
        let k = round_half_even(mag32(b), 149);
        lemma_pow2_pos(149);
        vstd::arithmetic::div_mod::lemma_mod_multiples_basic(k as int, pow2(149) as int);
        lemma_round_exact(mag32(r), 149);
        lemma_scaled_mag_order(exp32(r), man32(r), exp32(r2), man32(r2), 23);
    }
}

/// Rounding is idempotent: a rounded value rounds to itself (a NaN to a NaN).
pub proof fn lemma_round_idempotent64(b: u64, r: u64, r2: u64)
    requires
        rounds_to64(b, r),
        rounds_to64(r, r2),
    ensures
        is_nan64(b) ==> is_nan64(r2),
        !is_nan64(b) ==> r2 == r,
{
    lemma_fields64(r);
    lemma_fields64(r2);
    if !is_nan64(b) && !is_inf64(b) {
        let k = round_half_even(mag64(b), 1074);
        lemma_pow2_pos(1074);
        vstd::arithmetic::div_mod::lemma_mod_multiples_basic(k as int, pow2(1074) as int);
        lemma_round_exact(mag64(r), 1074);
        lemma_scaled_mag_order(exp64(r), man64(r), exp64(r2), man64(r2), 52);
    }
}

} // verus!
