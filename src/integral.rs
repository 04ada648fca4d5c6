//! Integer values held in bit patterns: whether a pattern is integral, and
//! the integer it holds where that fits a machine word.
use crate::ieee::{
    abs32, abs64, exp32, exp64, is_finite32, is_finite64, lemma_fields32, lemma_fields64,
    lemma_scaled_divmod, lemma_scaled_mag_bounds, mag32, mag64, man32, man64, scaled_mag,
    significand,
};
use vstd::arithmetic::mul::*;
use vstd::arithmetic::power2::*;
use vstd::prelude::*;

verus! {

/// The integer part of a normal magnitude, and whether a fraction is left over.
pub proof fn lemma_int_decode(e: nat, m: nat, mw: nat, sc: nat)
    requires
        m < pow2(mw),
        e >= 1,
    ensures
        e + mw <= sc ==> scaled_mag(e, m, mw) % pow2(sc) != 0,
        e <= sc ==> scaled_mag(e, m, mw) / pow2(sc) == significand(e, m, mw) / pow2(
            (sc + 1 - e) as nat,
        ),
        e <= sc ==> (scaled_mag(e, m, mw) % pow2(sc) == 0 <==> significand(e, m, mw) % pow2(
            (sc + 1 - e) as nat,
        ) == 0),
        e > sc ==> scaled_mag(e, m, mw) / pow2(sc) == significand(e, m, mw) * pow2(
            (e - 1 - sc) as nat,
        ),
        e > sc ==> scaled_mag(e, m, mw) % pow2(sc) == 0,
{
    let sig = significand(e, m, mw);
    let pe = pow2((e - 1) as nat);
    lemma_pow2_pos((e - 1) as nat);
    lemma_pow2_pos(sc);
    if e + mw <= sc {
        lemma_scaled_mag_bounds(e, m, mw);
        if e + mw < sc {
            lemma_pow2_strictly_increases(e + mw, sc);
        }
        vstd::arithmetic::div_mod::lemma_small_mod(scaled_mag(e, m, mw), pow2(sc));
        lemma_pow2_pos(mw);
        lemma_mul_strictly_positive(sig as int, pe as int);
    }
    if e <= sc {
        let d = (sc + 1 - e) as nat;
        lemma_scaled_divmod(sig, (e - 1) as nat, d);
        assert(((e - 1) as nat) + d == sc);
        assert(scaled_mag(e, m, mw) == sig * pe);
        let rm = sig % pow2(d);
        assert(scaled_mag(e, m, mw) % pow2(sc) == rm * pe);
        assert((rm * pe == 0) <==> (rm == 0)) by (nonlinear_arith)
            requires
                pe > 0,
        ;
    } else {
        let x = (e - 1 - sc) as nat;
        lemma_pow2_adds(sc, x);
        assert(((e - 1) as nat) == sc + x);
        lemma_mul_is_associative(sig as int, pow2(x) as int, pow2(sc) as int);
        lemma_mul_is_commutative(pow2(x) as int, pow2(sc) as int);
        vstd::arithmetic::div_mod::lemma_mod_multiples_basic((sig * pow2(x)) as int, pow2(sc) as int);
        vstd::arithmetic::div_mod::lemma_div_multiples_vanish((sig * pow2(x)) as int, pow2(sc) as int);
    }
}

/// The pattern holds a finite integer value.
pub open spec fn is_integral32(b: u32) -> bool {
    is_finite32(b) && mag32(b) % pow2(149) == 0
}

/// The magnitude of the integer value of an integral pattern.
pub open spec fn int_mag32(b: u32) -> nat {
    mag32(b) / pow2(149)
}

/// The magnitude of an integral pattern, where it is below 2^31.
pub fn small_int_mag32(b: u32) -> (r: Option<u32>)
    ensures
        r matches Some(k) ==> is_integral32(b) && k == int_mag32(b) && k < 0x8000_0000,
        r is None ==> !(is_integral32(b) && int_mag32(b) < 0x8000_0000),
{
    let a = abs32(b);
    let e: u32 = a / 0x80_0000;
    let m: u32 = a % 0x80_0000;
    proof {
        lemma_fields32(b);
        lemma2_to64();
        lemma_pow2_pos(149);
        assert(e == exp32(b) && m == man32(b));
    }
    if e >= 0xff {
        None
    } else if e == 0 {
        proof {
            lemma_pow2_strictly_increases(23, 149);
            assert(pow2(0) == 1);
            assert(scaled_mag(0, m as nat, 23) == m * pow2(0));
            assert(mag32(b) == m);
            vstd::arithmetic::div_mod::lemma_small_mod(m as nat, pow2(149));
            vstd::arithmetic::div_mod::lemma_basic_div(m as int, pow2(149) as int);
        }
        if m == 0 {
            Some(0)
        } else {
            None
        }
    } else if e < 127 {
        proof {
            lemma_int_decode(e as nat, m as nat, 23, 149);
        }
        None
    } else if e < 150 {
        let d: u32 = 150 - e;
        proof {
            lemma_int_decode(e as nat, m as nat, 23, 149);
            vstd::bits::lemma_u32_shl_is_mul(1, d);
            vstd::bits::lemma_u32_pow2_no_overflow(d as nat);
            assert(significand(e as nat, m as nat, 23) == m + 0x80_0000);
            assert((149 + 1 - e) as nat == d as nat);
        }
        let p: u32 = 1u32 << d;
        let sig: u32 = m + 0x80_0000;
        if sig % p == 0 {
            Some(sig / p)
        } else {
            None
        }
    } else if e < 158 {
        let x: u32 = e - 150;
        let sig: u32 = m + 0x80_0000;
        proof {
            lemma_int_decode(e as nat, m as nat, 23, 149);
            assert(significand(e as nat, m as nat, 23) == sig);
            assert((e - 1 - 149) as nat == x as nat);
            if x < 7 {
                lemma_pow2_strictly_increases(x as nat, 7);
            }
            lemma_mul_inequality(pow2(x as nat) as int, pow2(7) as int, sig as int);
            lemma_mul_is_commutative(pow2(x as nat) as int, sig as int);
            lemma_mul_strict_inequality(sig as int, 0x100_0000, pow2(7) as int);
            vstd::bits::lemma_u32_shl_is_mul(sig, x);
        }
        Some(sig << x)
    } else {
        proof {
            lemma_int_decode(e as nat, m as nat, 23, 149);
            let x = (e - 150) as nat;
            assert((e - 1 - 149) as nat == x);
            if x > 8 {
                lemma_pow2_strictly_increases(8, x);
            }
            lemma_mul_inequality(0x80_0000, (m + 0x80_0000) as int, pow2(x) as int);
            lemma_mul_inequality(pow2(8) as int, pow2(x) as int, 0x80_0000);
            lemma_mul_is_commutative(pow2(x) as int, 0x80_0000);
        }
        None
    }
}

/// The pattern holds a finite integer value.
pub open spec fn is_integral64(b: u64) -> bool {
    is_finite64(b) && mag64(b) % pow2(1074) == 0
}

/// The magnitude of the integer value of an integral pattern.
pub open spec fn int_mag64(b: u64) -> nat {
    mag64(b) / pow2(1074)
}

/// The magnitude of an integral pattern, where it is below 2^63.
pub fn small_int_mag64(b: u64) -> (r: Option<u64>)
    ensures
        r matches Some(k) ==> is_integral64(b) && k == int_mag64(b) && k < 0x8000_0000_0000_0000,
        r is None ==> !(is_integral64(b) && int_mag64(b) < 0x8000_0000_0000_0000),
{
    let a = abs64(b);
    let e: u64 = a / 0x10_0000_0000_0000;
    let m: u64 = a % 0x10_0000_0000_0000;
    proof {
        lemma_fields64(b);
        lemma2_to64();
        lemma2_to64_rest();
        lemma_pow2_pos(1074);
        assert(e == exp64(b) && m == man64(b));
    }
    if e >= 0x7ff {
        None
    } else if e == 0 {
        proof {
            lemma_pow2_strictly_increases(52, 1074);
            assert(pow2(0) == 1);
            assert(scaled_mag(0, m as nat, 52) == m * pow2(0));
            assert(mag64(b) == m);
            vstd::arithmetic::div_mod::lemma_small_mod(m as nat, pow2(1074));
            vstd::arithmetic::div_mod::lemma_basic_div(m as int, pow2(1074) as int);
        }
        if m == 0 {
            Some(0)
        } else {
            None
        }
    } else if e < 1023 {
        proof {
            lemma_int_decode(e as nat, m as nat, 52, 1074);
        }
        None
    } else if e < 1075 {
        let d: u64 = 1075 - e;
        proof {
            lemma_int_decode(e as nat, m as nat, 52, 1074);
            vstd::bits::lemma_u64_shl_is_mul(1, d);
            vstd::bits::lemma_u64_pow2_no_overflow(d as nat);
            assert(significand(e as nat, m as nat, 52) == m + 0x10_0000_0000_0000);
            assert((1074 + 1 - e) as nat == d as nat);
        }
        let p: u64 = 1u64 << d;
        let sig: u64 = m + 0x10_0000_0000_0000;
        if sig % p == 0 {
            Some(sig / p)
        } else {
            None
        }
    } else if e < 1086 {
        let x: u64 = e - 1075;
        let sig: u64 = m + 0x10_0000_0000_0000;
        proof {
            lemma_int_decode(e as nat, m as nat, 52, 1074);
            assert(significand(e as nat, m as nat, 52) == sig);
            assert((e - 1 - 1074) as nat == x as nat);
            if x < 10 {
                lemma_pow2_strictly_increases(x as nat, 10);
            }
            lemma_mul_inequality(pow2(x as nat) as int, pow2(10) as int, sig as int);
            lemma_mul_is_commutative(pow2(x as nat) as int, sig as int);
            lemma_mul_strict_inequality(sig as int, 0x20_0000_0000_0000, pow2(10) as int);
            vstd::bits::lemma_u64_shl_is_mul(sig, x);
        }
        Some(sig << x)
    } else {
        proof {
            lemma_int_decode(e as nat, m as nat, 52, 1074);
            let x = (e - 1075) as nat;
            assert((e - 1 - 1074) as nat == x);
            if x > 11 {
                lemma_pow2_strictly_increases(11, x);
            }
            lemma_mul_inequality(0x10_0000_0000_0000, (m + 0x10_0000_0000_0000) as int, pow2(x) as int);
            lemma_mul_inequality(pow2(11) as int, pow2(x) as int, 0x10_0000_0000_0000);
            lemma_mul_is_commutative(pow2(x) as int, 0x10_0000_0000_0000);
        }
        None
    }
}

} // verus!
