//! A mathematical model of IEEE-754 bit patterns.
//!
//! A non-NaN pattern with biased exponent `e` and mantissa field `m` (of `mw`
//! bits) has magnitude `significand(e, m) * 2^(max(e, 1) - bias - mw)`. Scaled
//! by `2^(bias + mw - 1)` this is the natural number `scaled_mag(e, m, mw)`,
//! which lets every value be compared and rounded with integers alone.
//! Infinity (`e` all ones, `m == 0`) gets a scaled magnitude larger than that
//! of every finite value.
use vstd::arithmetic::mul::*;
use vstd::arithmetic::power2::*;
use vstd::prelude::*;

verus! {

/// The significand: the mantissa field with the implicit leading bit of a normal number.
pub open spec fn significand(e: nat, m: nat, mw: nat) -> nat {
    if e == 0 {
        m
    } else {
        m + pow2(mw)
    }
}

/// The magnitude, scaled so that the smallest subnormal is 1.
pub open spec fn scaled_mag(e: nat, m: nat, mw: nat) -> nat {
    significand(e, m, mw) * pow2(if e == 0 { 0 } else { (e - 1) as nat })
}

/// Scaled magnitudes are strictly ordered as the pairs (exponent, mantissa).
pub proof fn lemma_scaled_mag_strict(e1: nat, m1: nat, e2: nat, m2: nat, mw: nat)
    requires
        m1 < pow2(mw),
        m2 < pow2(mw),
        e1 < e2 || (e1 == e2 && m1 < m2),
    ensures
        scaled_mag(e1, m1, mw) < scaled_mag(e2, m2, mw),
{
    lemma_pow2_pos(mw);
    if e1 == e2 {
        let p = pow2(if e1 == 0 { 0 } else { (e1 - 1) as nat });
        lemma_pow2_pos(if e1 == 0 { 0 } else { (e1 - 1) as nat });
        lemma_mul_strict_inequality(significand(e1, m1, mw) as int, significand(e2, m2, mw) as int, p as int);
        lemma_mul_is_commutative(significand(e1, m1, mw) as int, p as int);
        lemma_mul_is_commutative(significand(e2, m2, mw) as int, p as int);
    } else {
        let p2 = pow2((e2 - 1) as nat);
        lemma_pow2_pos((e2 - 1) as nat);
        let s2 = significand(e2, m2, mw);
        lemma_mul_increases(p2 as int, s2 as int);
        lemma_mul_is_commutative(p2 as int, s2 as int);
        // scaled_mag(e2, m2) >= pow2(mw) * pow2(e2 - 1)
        lemma_mul_inequality(pow2(mw) as int, s2 as int, p2 as int);
        if e1 == 0 {
            lemma_mul_increases(p2 as int, pow2(mw) as int);
            lemma_mul_is_commutative(p2 as int, pow2(mw) as int);
            assert(pow2(0) == 1) by {
                lemma2_to64();
            }
        } else {
            let p1 = pow2((e1 - 1) as nat);
            lemma_pow2_pos((e1 - 1) as nat);
            let s1 = significand(e1, m1, mw);
            // s1 < 2 * pow2(mw), so s1 * p1 < pow2(mw) * (2 * p1) = pow2(mw) * pow2(e1)
            lemma_mul_strict_inequality(s1 as int, 2 * pow2(mw) as int, p1 as int);
            lemma_pow2_unfold(e1);
            lemma_mul_is_associative(pow2(mw) as int, 2, p1 as int);
            if e1 < e2 - 1 {
                lemma_pow2_strictly_increases(e1, (e2 - 1) as nat);
            }
            lemma_mul_inequality(pow2(e1) as int, p2 as int, pow2(mw) as int);
            lemma_mul_is_commutative(pow2(e1) as int, pow2(mw) as int);
            lemma_mul_is_commutative(p2 as int, pow2(mw) as int);
        }
    }
}

/// Scaled magnitudes are ordered as the pairs (exponent, mantissa).
pub proof fn lemma_scaled_mag_order(e1: nat, m1: nat, e2: nat, m2: nat, mw: nat)
    requires
        m1 < pow2(mw),
        m2 < pow2(mw),
    ensures
        (e1 < e2 || (e1 == e2 && m1 <= m2)) <==> scaled_mag(e1, m1, mw) <= scaled_mag(e2, m2, mw),
        (e1 < e2 || (e1 == e2 && m1 < m2)) <==> scaled_mag(e1, m1, mw) < scaled_mag(e2, m2, mw),
{
    if e1 < e2 || (e1 == e2 && m1 < m2) {
        lemma_scaled_mag_strict(e1, m1, e2, m2, mw);
    } else if e2 < e1 || (e1 == e2 && m2 < m1) {
        lemma_scaled_mag_strict(e2, m2, e1, m1, mw);
    }
}

/// Sign field of a binary32 pattern.
pub open spec fn sign32(b: u32) -> bool {
    b >= 0x8000_0000
}

/// Biased exponent field of a binary32 pattern.
pub open spec fn exp32(b: u32) -> nat {
    (b as nat % 0x8000_0000) / 0x80_0000
}

/// Mantissa field of a binary32 pattern.
pub open spec fn man32(b: u32) -> nat {
    b as nat % 0x80_0000
}

pub open spec fn is_nan32(b: u32) -> bool {
    exp32(b) == 0xff && man32(b) != 0
}

pub open spec fn is_inf32(b: u32) -> bool {
    exp32(b) == 0xff && man32(b) == 0
}

pub open spec fn is_finite32(b: u32) -> bool {
    exp32(b) < 0xff
}

/// Magnitude of a non-NaN binary32 pattern, in units of the smallest subnormal (2^-149).
pub open spec fn mag32(b: u32) -> nat {
    scaled_mag(exp32(b), man32(b), 23)
}

/// Signed value of a non-NaN binary32 pattern, in units of 2^-149.
pub open spec fn num32(b: u32) -> int {
    if sign32(b) {
        -mag32(b)
    } else {
        mag32(b) as int
    }
}

/// IEEE `a < b`: false when either side is NaN.
pub open spec fn lt32(a: u32, b: u32) -> bool {
    !is_nan32(a) && !is_nan32(b) && num32(a) < num32(b)
}

/// IEEE `a == b`: false when either side is NaN, true for `0 == -0`.
pub open spec fn eq32(a: u32, b: u32) -> bool {
    !is_nan32(a) && !is_nan32(b) && num32(a) == num32(b)
}

/// A pattern is the exponent and mantissa fields over the sign bit.
pub proof fn lemma_fields32(b: u32)
    ensures
        b as nat == (if sign32(b) { 0x8000_0000nat } else { 0 }) + exp32(b) * 0x80_0000 + man32(b),
        exp32(b) <= 0xff,
        man32(b) < pow2(23),
        pow2(23) == 0x80_0000,
{
    lemma2_to64();
}

/// Patterns without the sign bit are ordered as their magnitudes.
pub proof fn lemma_abs_order32(a: u32, b: u32)
    requires
        a < 0x8000_0000,
        b < 0x8000_0000,
    ensures
        a <= b <==> mag32(a) <= mag32(b),
        a < b <==> mag32(a) < mag32(b),
        mag32(a) == 0 <==> a == 0,
{
    lemma_fields32(a);
    lemma_fields32(b);
    lemma_fields32(0);
    lemma_scaled_mag_order(exp32(a), man32(a), exp32(b), man32(b), 23);
    lemma_scaled_mag_order(exp32(a), man32(a), 0, 0, 23);
    lemma2_to64();
    assert(scaled_mag(0, 0, 23) == 0);
}

/// Sign field of a binary64 pattern.
pub open spec fn sign64(b: u64) -> bool {
    b >= 0x8000_0000_0000_0000
}

/// Biased exponent field of a binary64 pattern.
pub open spec fn exp64(b: u64) -> nat {
    (b as nat % 0x8000_0000_0000_0000) / 0x10_0000_0000_0000
}

/// Mantissa field of a binary64 pattern.
pub open spec fn man64(b: u64) -> nat {
    b as nat % 0x10_0000_0000_0000
}

pub open spec fn is_nan64(b: u64) -> bool {
    exp64(b) == 0x7ff && man64(b) != 0
}

pub open spec fn is_inf64(b: u64) -> bool {
    exp64(b) == 0x7ff && man64(b) == 0
}

pub open spec fn is_finite64(b: u64) -> bool {
    exp64(b) < 0x7ff
}

/// Magnitude of a non-NaN binary64 pattern, in units of the smallest subnormal (2^-1074).
pub open spec fn mag64(b: u64) -> nat {
    scaled_mag(exp64(b), man64(b), 52)
}

/// Signed value of a non-NaN binary64 pattern, in units of 2^-1074.
pub open spec fn num64(b: u64) -> int {
    if sign64(b) {
        -mag64(b)
    } else {
        mag64(b) as int
    }
}

/// IEEE `a < b`: false when either side is NaN.
pub open spec fn lt64(a: u64, b: u64) -> bool {
    !is_nan64(a) && !is_nan64(b) && num64(a) < num64(b)
}

/// IEEE `a == b`: false when either side is NaN, true for `0 == -0`.
pub open spec fn eq64(a: u64, b: u64) -> bool {
    !is_nan64(a) && !is_nan64(b) && num64(a) == num64(b)
}

/// A pattern is the exponent and mantissa fields over the sign bit.
pub proof fn lemma_fields64(b: u64)
    ensures
        b as nat == (if sign64(b) { 0x8000_0000_0000_0000nat } else { 0 }) + exp64(b) * 0x10_0000_0000_0000 + man64(b),
        exp64(b) <= 0x7ff,
        man64(b) < pow2(52),
        pow2(52) == 0x10_0000_0000_0000,
{
    lemma2_to64();
    lemma2_to64_rest();
}

/// Patterns without the sign bit are ordered as their magnitudes.
pub proof fn lemma_abs_order64(a: u64, b: u64)
    requires
        a < 0x8000_0000_0000_0000,
        b < 0x8000_0000_0000_0000,
    ensures
        a <= b <==> mag64(a) <= mag64(b),
        a < b <==> mag64(a) < mag64(b),
        mag64(a) == 0 <==> a == 0,
{
    lemma_fields64(a);
    lemma_fields64(b);
    lemma_fields64(0);
    lemma_scaled_mag_order(exp64(a), man64(a), exp64(b), man64(b), 52);
    lemma_scaled_mag_order(exp64(a), man64(a), 0, 0, 52);
    lemma2_to64();
    assert(scaled_mag(0, 0, 52) == 0);
}

/// Clearing the sign bit keeps the exponent and mantissa fields.
pub proof fn lemma_abs_bits32(b: u32)
    ensures
        b & 0x7fff_ffff == b as nat % 0x8000_0000,
        exp32(b & 0x7fff_ffff) == exp32(b),
        man32(b & 0x7fff_ffff) == man32(b),
        mag32(b & 0x7fff_ffff) == mag32(b),
        !sign32(b & 0x7fff_ffff),
{
    assert(b & 0x7fff_ffff == b % 0x8000_0000) by (bit_vector);
    lemma_fields32(b);
    lemma_fields32(b & 0x7fff_ffff);
}

/// The pattern with the sign bit cleared.
pub fn abs32(b: u32) -> (r: u32)
    ensures
        r as nat == b as nat % 0x8000_0000,
        !sign32(r),
        exp32(r) == exp32(b),
        man32(r) == man32(b),
        mag32(r) == mag32(b),
{
    proof {
        lemma_abs_bits32(b);
    }
    b & 0x7fff_ffff
}

/// Whether the pattern is a NaN.
pub fn nan32(b: u32) -> (r: bool)
    ensures
        r == is_nan32(b),
{
    proof {
        lemma_fields32(b);
    }
    abs32(b) > 0x7f80_0000
}

/// Whether the pattern is finite (neither infinite nor NaN).
pub fn finite32(b: u32) -> (r: bool)
    ensures
        r == is_finite32(b),
{
    proof {
        lemma_fields32(b);
    }
    abs32(b) < 0x7f80_0000
}

/// IEEE `a < b` on two patterns.
pub fn less32(a: u32, b: u32) -> (r: bool)
    ensures
        r == lt32(a, b),
{
    let aa = abs32(a);
    let ab = abs32(b);
    proof {
        lemma_abs_order32(aa, ab);
    }
    let a_nan = nan32(a);
    let b_nan = nan32(b);
    let ordered = !a_nan && !b_nan;
    let na = a >= 0x8000_0000;
    let nb = b >= 0x8000_0000;
    let zeros = aa == 0 && ab == 0;
    let lt_abs = aa < ab;
    let gt_abs = ab < aa;
    ordered && ((!na && !nb && lt_abs) || (na && nb && gt_abs) || (na && !nb && !zeros))
}

/// IEEE `a == b` on two patterns.
pub fn equal32(a: u32, b: u32) -> (r: bool)
    ensures
        r == eq32(a, b),
{
    let aa = abs32(a);
    let ab = abs32(b);
    proof {
        lemma_abs_order32(aa, ab);
        lemma_fields32(a);
        lemma_fields32(b);
    }
    let a_nan = nan32(a);
    let b_nan = nan32(b);
    let zeros = aa == 0 && ab == 0;
    let same = a == b;
    !a_nan && !b_nan && (zeros || same)
}

/// Clearing the sign bit keeps the exponent and mantissa fields.
pub proof fn lemma_abs_bits64(b: u64)
    ensures
        b & 0x7fff_ffff_ffff_ffff == b as nat % 0x8000_0000_0000_0000,
        exp64(b & 0x7fff_ffff_ffff_ffff) == exp64(b),
        man64(b & 0x7fff_ffff_ffff_ffff) == man64(b),
        mag64(b & 0x7fff_ffff_ffff_ffff) == mag64(b),
        !sign64(b & 0x7fff_ffff_ffff_ffff),
{
    assert(b & 0x7fff_ffff_ffff_ffff == b % 0x8000_0000_0000_0000) by (bit_vector);
    lemma_fields64(b);
    lemma_fields64(b & 0x7fff_ffff_ffff_ffff);
}

/// The pattern with the sign bit cleared.
pub fn abs64(b: u64) -> (r: u64)
    ensures
        r as nat == b as nat % 0x8000_0000_0000_0000,
        !sign64(r),
        exp64(r) == exp64(b),
        man64(r) == man64(b),
        mag64(r) == mag64(b),
{
    proof {
        lemma_abs_bits64(b);
    }
    b & 0x7fff_ffff_ffff_ffff
}

/// Whether the pattern is a NaN.
pub fn nan64(b: u64) -> (r: bool)
    ensures
        r == is_nan64(b),
{
    proof {
        lemma_fields64(b);
    }
    abs64(b) > 0x7ff0_0000_0000_0000
}

/// Whether the pattern is finite (neither infinite nor NaN).
pub fn finite64(b: u64) -> (r: bool)
    ensures
        r == is_finite64(b),
{
    proof {
        lemma_fields64(b);
    }
    abs64(b) < 0x7ff0_0000_0000_0000
}

/// IEEE `a < b` on two patterns.
pub fn less64(a: u64, b: u64) -> (r: bool)
    ensures
        r == lt64(a, b),
{
    let aa = abs64(a);
    let ab = abs64(b);
    proof {
        lemma_abs_order64(aa, ab);
    }
    let a_nan = nan64(a);
    let b_nan = nan64(b);
    let ordered = !a_nan && !b_nan;
    let na = a >= 0x8000_0000_0000_0000;
    let nb = b >= 0x8000_0000_0000_0000;
    let zeros = aa == 0 && ab == 0;
    let lt_abs = aa < ab;
    let gt_abs = ab < aa;
    ordered && ((!na && !nb && lt_abs) || (na && nb && gt_abs) || (na && !nb && !zeros))
}

/// IEEE `a == b` on two patterns.
pub fn equal64(a: u64, b: u64) -> (r: bool)
    ensures
        r == eq64(a, b),
{
    let aa = abs64(a);
    let ab = abs64(b);
    proof {
        lemma_abs_order64(aa, ab);
        lemma_fields64(a);
        lemma_fields64(b);
    }
    let a_nan = nan64(a);
    let b_nan = nan64(b);
    let zeros = aa == 0 && ab == 0;
    let same = a == b;
    !a_nan && !b_nan && (zeros || same)
}

/// Scaled magnitudes are below `2^(mw + e)`, and at least `2^(mw + e - 1)` when normal.
pub proof fn lemma_scaled_mag_bounds(e: nat, m: nat, mw: nat)
    requires
        m < pow2(mw),
    ensures
        scaled_mag(e, m, mw) < pow2(mw + e),
        e >= 1 ==> pow2((mw + e - 1) as nat) <= scaled_mag(e, m, mw),
{
    lemma2_to64();
    if e == 0 {
        assert(scaled_mag(e, m, mw) == m);
    } else {
        let p = pow2((e - 1) as nat);
        lemma_pow2_pos((e - 1) as nat);
        lemma_pow2_unfold(mw + 1);
        lemma_pow2_adds(mw + 1, (e - 1) as nat);
        lemma_pow2_adds(mw, (e - 1) as nat);
        lemma_mul_strict_inequality((m + pow2(mw)) as int, pow2(mw + 1) as int, p as int);
        lemma_mul_inequality(pow2(mw) as int, (m + pow2(mw)) as int, p as int);
    }
}

/// The fields of a pattern built from a sign, an exponent field and a mantissa field.
pub proof fn lemma_compose32(b: u32, s: bool, e: nat, m: nat)
    requires
        e <= 0xff,
        m < 0x80_0000,
        b as nat == (if s { 0x8000_0000nat } else { 0 }) + e * 0x80_0000 + m,
    ensures
        sign32(b) == s,
        exp32(b) == e,
        man32(b) == m,
{
    vstd::arithmetic::div_mod::lemma_fundamental_div_mod_converse(
        b as int,
        0x8000_0000,
        if s { 1 } else { 0 },
        (e * 0x80_0000 + m) as int,
    );
    vstd::arithmetic::div_mod::lemma_fundamental_div_mod_converse(
        (e * 0x80_0000 + m) as int,
        0x80_0000,
        e as int,
        m as int,
    );
    vstd::arithmetic::div_mod::lemma_fundamental_div_mod_converse(
        b as int,
        0x80_0000,
        ((if s { 0x100nat } else { 0 }) + e) as int,
        m as int,
    );
}

/// The fields of a pattern built from a sign, an exponent field and a mantissa field.
pub proof fn lemma_compose64(b: u64, s: bool, e: nat, m: nat)
    requires
        e <= 0x7ff,
        m < 0x10_0000_0000_0000,
        b as nat == (if s { 0x8000_0000_0000_0000nat } else { 0 }) + e * 0x10_0000_0000_0000 + m,
    ensures
        sign64(b) == s,
        exp64(b) == e,
        man64(b) == m,
{
    vstd::arithmetic::div_mod::lemma_fundamental_div_mod_converse(
        b as int,
        0x8000_0000_0000_0000,
        if s { 1 } else { 0 },
        (e * 0x10_0000_0000_0000 + m) as int,
    );
    vstd::arithmetic::div_mod::lemma_fundamental_div_mod_converse(
        (e * 0x10_0000_0000_0000 + m) as int,
        0x10_0000_0000_0000,
        e as int,
        m as int,
    );
    vstd::arithmetic::div_mod::lemma_fundamental_div_mod_converse(
        b as int,
        0x10_0000_0000_0000,
        ((if s { 0x800nat } else { 0 }) + e) as int,
        m as int,
    );
}

/// Dividing `n * 2^a` by `2^(a + d)`: quotient and remainder.
pub proof fn lemma_scaled_divmod(n: nat, a: nat, d: nat)
    ensures
        (n * pow2(a)) / pow2(a + d) == n / pow2(d),
        (n * pow2(a)) % pow2(a + d) == (n % pow2(d)) * pow2(a),
{
    let pa = pow2(a);
    let pd = pow2(d);
    lemma_pow2_pos(a);
    lemma_pow2_pos(d);
    lemma_pow2_adds(a, d);
    let q = n / pd;
    let r = n % pd;
    vstd::arithmetic::div_mod::lemma_fundamental_div_mod(n as int, pd as int);
    vstd::arithmetic::div_mod::lemma_mod_bound(n as int, pd as int);
    assert(n * pa == q * (pa * pd) + r * pa) by (nonlinear_arith)
        requires
            n == pd * q + r,
    ;
    assert(0 <= r * pa < pa * pd) by (nonlinear_arith)
        requires
            0 <= r < pd,
            pa > 0,
    ;
    vstd::arithmetic::div_mod::lemma_fundamental_div_mod_converse(
        (n * pa) as int,
        (pa * pd) as int,
        q as int,
        (r * pa) as int,
    );
}

} // verus!
