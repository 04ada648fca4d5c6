//! Sign-bit manipulation and rounding, on the bit-pattern view of lane vectors.
use crate::ieee::{exp32, exp64, lemma_fields32, lemma_fields64, man32, man64, sign32, sign64};
use crate::lanes::{Lanes32, Lanes64};
use crate::round::{round32, round64, rounds_to32, rounds_to64};
use vstd::prelude::*;

verus! {

/// Operations on the sign bit of each lane.
pub trait FloatBitUtils: Sized {
    /// The unsigned-integer lane vector of matching width.
    type Bits;

    /// Per lane, the sign-bit mask if the sign bit is set, and zero otherwise.
    fn sign_bit(self) -> Self::Bits;

    /// Per lane, the magnitude of `self` with the sign of `self` flipped where
    /// `other` is negative: `self * other.signum()` up to NaN and zeros.
    fn sign_combine(self, other: Self) -> Self;
}

/// Rounding of each lane to the nearest integer, ties to even.
pub trait FastRound {
    fn fast_round(self) -> Self;
}

/// Xor with a sign mask flips the sign exactly when the mask is set.
pub proof fn lemma_xor_sign32(v: u32, s: u32)
    requires
        s == 0 || s == 0x8000_0000,
    ensures
        exp32(v ^ s) == exp32(v),
        man32(v ^ s) == man32(v),
        sign32(v ^ s) == (sign32(v) != (s == 0x8000_0000)),
{
    assert((v ^ s) % 0x8000_0000 == v % 0x8000_0000 && (v ^ s) % 0x80_0000 == v % 0x80_0000 && ((
    v ^ s) >= 0x8000_0000) == ((v >= 0x8000_0000) != (s == 0x8000_0000))) by (bit_vector)
        requires
            s == 0 || s == 0x8000_0000,
    ;
}

/// The sign-bit mask of a pattern.
pub fn sign_bit32(v: u32) -> (r: u32)
    ensures
        r == if sign32(v) { 0x8000_0000u32 } else { 0 },
{
    assert(v & 0x8000_0000 == if v >= 0x8000_0000 { 0x8000_0000u32 } else { 0 }) by (bit_vector);
    v & 0x8000_0000
}

/// `r` is `m` with its sign flipped where `s` is negative.
pub open spec fn sign_combined32(m: u32, s: u32, r: u32) -> bool {
    &&& exp32(r) == exp32(m)
    &&& man32(r) == man32(m)
    &&& sign32(r) == (sign32(m) != sign32(s))
}

/// Combining in the sign of the same source twice gives the pattern back.
pub proof fn lemma_sign_combine_twice32(m: u32, s: u32, r: u32, r2: u32)
    requires
        sign_combined32(m, s, r),
        sign_combined32(r, s, r2),
    ensures
        r2 == m,
{
    lemma_fields32(m);
    lemma_fields32(r2);
}

/// `m` with its sign flipped where `s` is negative.
pub fn sign_combine32(m: u32, s: u32) -> (r: u32)
    ensures
        sign_combined32(m, s, r),
{
    let b = sign_bit32(s);
    proof {
        lemma_xor_sign32(m, b);
    }
    m ^ b
}

impl<const N: usize> FloatBitUtils for Lanes32<N> {
    type Bits = [u32; N];

    fn sign_bit(self) -> (r: [u32; N])
        ensures
            forall|i: int| 0 <= i < N ==> r[i] == if sign32(self.bits[i]) { 0x8000_0000u32 } else { 0 },
    {
        let mut r = self.bits;
        let mut i: usize = 0;
        while i < N
            invariant
                0 <= i <= N,
                forall|j: int| 0 <= j < i ==> r[j] == if sign32(self.bits[j]) { 0x8000_0000u32 } else { 0 },
            decreases N - i,
        {
            r[i] = sign_bit32(self.bits[i]);
            i = i + 1;
        }
        r
    }

    fn sign_combine(self, other: Self) -> (r: Self)
        ensures
            forall|i: int| 0 <= i < N ==> sign_combined32(self.bits[i], other.bits[i], r.bits[i]),
    {
        let mut r = self.bits;
        let mut i: usize = 0;
        while i < N
            invariant
                0 <= i <= N,
                forall|j: int| 0 <= j < i ==> sign_combined32(self.bits[j], other.bits[j], r[j]),
            decreases N - i,
        {
            r[i] = sign_combine32(self.bits[i], other.bits[i]);
            i = i + 1;
        }
        Lanes32 { bits: r }
    }
}

impl<const N: usize> FastRound for Lanes32<N> {
    fn fast_round(self) -> (r: Self)
        ensures
            forall|i: int| 0 <= i < N ==> rounds_to32(self.bits[i], r.bits[i]),
    {
        let mut r = self.bits;
        let mut i: usize = 0;
        while i < N
            invariant
                0 <= i <= N,
                forall|j: int| 0 <= j < i ==> rounds_to32(self.bits[j], r[j]),
            decreases N - i,
        {
            r[i] = round32(self.bits[i]);
            i = i + 1;
        }
        Lanes32 { bits: r }
    }
}

/// Xor with a sign mask flips the sign exactly when the mask is set.
pub proof fn lemma_xor_sign64(v: u64, s: u64)
    requires
        s == 0 || s == 0x8000_0000_0000_0000,
    ensures
        exp64(v ^ s) == exp64(v),
        man64(v ^ s) == man64(v),
        sign64(v ^ s) == (sign64(v) != (s == 0x8000_0000_0000_0000)),
{
    assert((v ^ s) % 0x8000_0000_0000_0000 == v % 0x8000_0000_0000_0000 && (v ^ s) % 0x10_0000_0000_0000 == v % 0x10_0000_0000_0000 && ((
    v ^ s) >= 0x8000_0000_0000_0000) == ((v >= 0x8000_0000_0000_0000) != (s == 0x8000_0000_0000_0000))) by (bit_vector)
        requires
            s == 0 || s == 0x8000_0000_0000_0000,
    ;
}

/// The sign-bit mask of a pattern.
pub fn sign_bit64(v: u64) -> (r: u64)
    ensures
        r == if sign64(v) { 0x8000_0000_0000_0000u64 } else { 0 },
{
    assert(v & 0x8000_0000_0000_0000 == if v >= 0x8000_0000_0000_0000 { 0x8000_0000_0000_0000u64 } else { 0 }) by (bit_vector);
    v & 0x8000_0000_0000_0000
}

/// `r` is `m` with its sign flipped where `s` is negative.
pub open spec fn sign_combined64(m: u64, s: u64, r: u64) -> bool {
    &&& exp64(r) == exp64(m)
    &&& man64(r) == man64(m)
    &&& sign64(r) == (sign64(m) != sign64(s))
}

/// Combining in the sign of the same source twice gives the pattern back.
pub proof fn lemma_sign_combine_twice64(m: u64, s: u64, r: u64, r2: u64)
    requires
        sign_combined64(m, s, r),
        sign_combined64(r, s, r2),
    ensures
        r2 == m,
{
    lemma_fields64(m);
    lemma_fields64(r2);
}

/// `m` with its sign flipped where `s` is negative.
pub fn sign_combine64(m: u64, s: u64) -> (r: u64)
    ensures
        sign_combined64(m, s, r),
{
    let b = sign_bit64(s);
    proof {
        lemma_xor_sign64(m, b);
    }
    m ^ b
}

impl<const N: usize> FloatBitUtils for Lanes64<N> {
    type Bits = [u64; N];

    fn sign_bit(self) -> (r: [u64; N])
        ensures
            forall|i: int| 0 <= i < N ==> r[i] == if sign64(self.bits[i]) { 0x8000_0000_0000_0000u64 } else { 0 },
    {
        let mut r = self.bits;
        let mut i: usize = 0;
        while i < N
            invariant
                0 <= i <= N,
                forall|j: int| 0 <= j < i ==> r[j] == if sign64(self.bits[j]) { 0x8000_0000_0000_0000u64 } else { 0 },
            decreases N - i,
        {
            r[i] = sign_bit64(self.bits[i]);
            i = i + 1;
        }
        r
    }

    fn sign_combine(self, other: Self) -> (r: Self)
        ensures
            forall|i: int| 0 <= i < N ==> sign_combined64(self.bits[i], other.bits[i], r.bits[i]),
    {
        let mut r = self.bits;
        let mut i: usize = 0;
        while i < N
            invariant
                0 <= i <= N,
                forall|j: int| 0 <= j < i ==> sign_combined64(self.bits[j], other.bits[j], r[j]),
            decreases N - i,
        {
            r[i] = sign_combine64(self.bits[i], other.bits[i]);
            i = i + 1;
        }
        Lanes64 { bits: r }
    }
}

impl<const N: usize> FastRound for Lanes64<N> {
    fn fast_round(self) -> (r: Self)
        ensures
            forall|i: int| 0 <= i < N ==> rounds_to64(self.bits[i], r.bits[i]),
    {
        let mut r = self.bits;
        let mut i: usize = 0;
        while i < N
            invariant
                0 <= i <= N,
                forall|j: int| 0 <= j < i ==> rounds_to64(self.bits[j], r[j]),
            decreases N - i,
        {
            r[i] = round64(self.bits[i]);
            i = i + 1;
        }
        Lanes64 { bits: r }
    }
}

} // verus!
