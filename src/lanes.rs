//! Lane vectors of IEEE-754 values, held as their bit patterns, and lane masks.
//!
//! Every operation here works on each lane independently: lane `i` of a result
//! depends on lane `i` of the arguments alone.
use crate::ieee::{
    abs32, abs64, eq32, eq64, equal32, equal64, exp32, exp64, finite32, finite64, is_finite32,
    is_finite64, is_nan32, is_nan64, less32, less64, lt32, lt64, mag32, mag64, man32, man64,
    nan32, nan64, sign32, sign64,
};
use vstd::prelude::*;

verus! {

/// A per-lane boolean vector, produced by comparisons and consumed by `select`.
#[derive(Clone, Copy, Debug, PartialEq, Eq)]
pub struct Mask<const N: usize> {
    pub lanes: [bool; N],
}

/// `a` when `m` holds and `b` otherwise, without a branch: `b ^ ((a ^ b) & mask)`
/// with `mask` all ones or all zeros.
pub fn blend32(m: bool, a: u32, b: u32) -> (r: u32)
    ensures
        r == if m { a } else { b },
{
    let k = m as u32;
    proof {
        assert(k == 0 || k == 1);
    }
    let mask: u32 = k * 0xffff_ffff;
    proof {
        assert((k == 1 ==> b ^ ((a ^ b) & mask) == a) && (k == 0 ==> b ^ ((a ^ b) & mask) == b))
            by (bit_vector)
            requires
                k <= 1,
                mask == k * 0xffff_ffff,
        ;
    }
    b ^ ((a ^ b) & mask)
}

/// `a` when `m` holds and `b` otherwise, without a branch: `b ^ ((a ^ b) & mask)`
/// with `mask` all ones or all zeros.
pub fn blend64(m: bool, a: u64, b: u64) -> (r: u64)
    ensures
        r == if m { a } else { b },
{
    let k = m as u64;
    proof {
        assert(k == 0 || k == 1);
    }
    let mask: u64 = k * 0xffff_ffff_ffff_ffff;
    proof {
        assert((k == 1 ==> b ^ ((a ^ b) & mask) == a) && (k == 0 ==> b ^ ((a ^ b) & mask) == b))
            by (bit_vector)
            requires
                k <= 1,
                mask == k * 0xffff_ffff_ffff_ffff,
        ;
    }
    b ^ ((a ^ b) & mask)
}

impl<const N: usize> Mask<N> {
    pub fn from_array(lanes: [bool; N]) -> (r: Self)
        ensures
            r.lanes == lanes,
    {
        Mask { lanes }
    }

    /// `select` on lane vectors of binary32 values: per lane, `a` where the mask
    /// is set and `b` elsewhere, by bit arithmetic on an all-ones or all-zeros mask.
    pub fn select32(&self, a: Lanes32<N>, b: Lanes32<N>) -> (r: Lanes32<N>)
        ensures
            forall|i: int|
                0 <= i < N ==> r.bits[i] == if self.lanes[i] { a.bits[i] } else { b.bits[i] },
    {
        let mut r = b.bits;
        let mut i: usize = 0;
        while i < N
            invariant
                0 <= i <= N,
                forall|j: int| 0 <= j < i ==> r[j] == if self.lanes[j] { a.bits[j] } else { b.bits[j] },
            decreases N - i,
        {
            r[i] = blend32(self.lanes[i], a.bits[i], b.bits[i]);
            i = i + 1;
        }
        Lanes32 { bits: r }
    }

    /// `select` on lane vectors of binary64 values: per lane, `a` where the mask
    /// is set and `b` elsewhere, by bit arithmetic on an all-ones or all-zeros mask.
    pub fn select64(&self, a: Lanes64<N>, b: Lanes64<N>) -> (r: Lanes64<N>)
        ensures
            forall|i: int|
                0 <= i < N ==> r.bits[i] == if self.lanes[i] { a.bits[i] } else { b.bits[i] },
    {
        let mut r = b.bits;
        let mut i: usize = 0;
        while i < N
            invariant
                0 <= i <= N,
                forall|j: int| 0 <= j < i ==> r[j] == if self.lanes[j] { a.bits[j] } else { b.bits[j] },
            decreases N - i,
        {
            r[i] = blend64(self.lanes[i], a.bits[i], b.bits[i]);
            i = i + 1;
        }
        Lanes64 { bits: r }
    }

    /// Lane-wise conjunction.
    pub fn and(&self, other: &Self) -> (r: Self)
        ensures
            forall|i: int| 0 <= i < N ==> r.lanes[i] == (self.lanes[i] && other.lanes[i]),
    {
        let mut r = self.lanes;
        let mut i: usize = 0;
        while i < N
            invariant
                0 <= i <= N,
                forall|j: int| 0 <= j < i ==> r[j] == (self.lanes[j] && other.lanes[j]),
                forall|j: int| i <= j < N ==> r[j] == self.lanes[j],
            decreases N - i,
        {
            r[i] = self.lanes[i] && other.lanes[i];
            i = i + 1;
        }
        Mask { lanes: r }
    }

    /// Lane-wise disjunction.
    pub fn or(&self, other: &Self) -> (r: Self)
        ensures
            forall|i: int| 0 <= i < N ==> r.lanes[i] == (self.lanes[i] || other.lanes[i]),
    {
        let mut r = self.lanes;
        let mut i: usize = 0;
        while i < N
            invariant
                0 <= i <= N,
                forall|j: int| 0 <= j < i ==> r[j] == (self.lanes[j] || other.lanes[j]),
                forall|j: int| i <= j < N ==> r[j] == self.lanes[j],
            decreases N - i,
        {
            r[i] = self.lanes[i] || other.lanes[i];
            i = i + 1;
        }
        Mask { lanes: r }
    }

    /// Lane-wise negation.
    pub fn not(&self) -> (r: Self)
        ensures
            forall|i: int| 0 <= i < N ==> r.lanes[i] == !self.lanes[i],
    {
        let mut r = self.lanes;
        let mut i: usize = 0;
        while i < N
            invariant
                0 <= i <= N,
                forall|j: int| 0 <= j < i ==> r[j] == !self.lanes[j],
            decreases N - i,
        {
            r[i] = !self.lanes[i];
            i = i + 1;
        }
        Mask { lanes: r }
    }

    /// Whether every lane is set.
    pub fn all(&self) -> (r: bool)
        ensures
            r == forall|i: int| 0 <= i < N ==> self.lanes[i],
    {
        let mut i: usize = 0;
        while i < N
            invariant
                0 <= i <= N,
                forall|j: int| 0 <= j < i ==> self.lanes[j],
            decreases N - i,
        {
            if !self.lanes[i] {
                return false;
            }
            i = i + 1;
        }
        true
    }
}

/// A lane vector of `N` binary32 values, each stored as its bit pattern.
#[derive(Clone, Copy, Debug, PartialEq, Eq)]
pub struct Lanes32<const N: usize> {
    pub bits: [u32; N],
}

impl<const N: usize> Lanes32<N> {
    /// The vector whose lanes have the given bit patterns.
    pub fn from_bits(bits: [u32; N]) -> (r: Self)
        ensures
            r.bits == bits,
    {
        Lanes32 { bits }
    }

    /// The bit patterns of the lanes.
    pub fn to_bits(self) -> (r: [u32; N])
        ensures
            r == self.bits,
    {
        self.bits
    }

    /// Every lane holds the pattern `b`.
    pub fn splat(b: u32) -> (r: Self)
        ensures
            forall|i: int| 0 <= i < N ==> r.bits[i] == b,
    {
        Lanes32 { bits: [b; N] }
    }

    /// Absolute value: each lane with its sign bit cleared.
    pub fn abs(self) -> (r: Self)
        ensures
            forall|i: int|
                0 <= i < N ==> {
                    &&& r.bits[i] as nat == self.bits[i] as nat % 0x8000_0000
                    &&& !sign32(r.bits[i])
                    &&& mag32(r.bits[i]) == mag32(self.bits[i])
                    &&& exp32(r.bits[i]) == exp32(self.bits[i])
                    &&& man32(r.bits[i]) == man32(self.bits[i])
                },
    {
        let mut r = self.bits;
        let mut i: usize = 0;
        while i < N
            invariant
                0 <= i <= N,
                forall|j: int|
                    0 <= j < i ==> {
                        &&& r[j] as nat == self.bits[j] as nat % 0x8000_0000
                        &&& !sign32(r[j])
                        &&& mag32(r[j]) == mag32(self.bits[j])
                        &&& exp32(r[j]) == exp32(self.bits[j])
                        &&& man32(r[j]) == man32(self.bits[j])
                    },
            decreases N - i,
        {
            r[i] = abs32(self.bits[i]);
            i = i + 1;
        }
        Lanes32 { bits: r }
    }

    /// Lanes holding a NaN.
    pub fn is_nan(self) -> (r: Mask<N>)
        ensures
            forall|i: int| 0 <= i < N ==> r.lanes[i] == is_nan32(self.bits[i]),
    {
        let mut r = [false; N];
        let mut i: usize = 0;
        while i < N
            invariant
                0 <= i <= N,
                forall|j: int| 0 <= j < i ==> r[j] == is_nan32(self.bits[j]),
            decreases N - i,
        {
            r[i] = nan32(self.bits[i]);
            i = i + 1;
        }
        Mask { lanes: r }
    }

    /// Lanes holding a finite value.
    pub fn is_finite(self) -> (r: Mask<N>)
        ensures
            forall|i: int| 0 <= i < N ==> r.lanes[i] == is_finite32(self.bits[i]),
    {
        let mut r = [false; N];
        let mut i: usize = 0;
        while i < N
            invariant
                0 <= i <= N,
                forall|j: int| 0 <= j < i ==> r[j] == is_finite32(self.bits[j]),
            decreases N - i,
        {
            r[i] = finite32(self.bits[i]);
            i = i + 1;
        }
        Mask { lanes: r }
    }

    /// Lanes whose sign bit is clear.
    pub fn is_sign_positive(self) -> (r: Mask<N>)
        ensures
            forall|i: int| 0 <= i < N ==> r.lanes[i] == !sign32(self.bits[i]),
    {
        let mut r = [false; N];
        let mut i: usize = 0;
        while i < N
            invariant
                0 <= i <= N,
                forall|j: int| 0 <= j < i ==> r[j] == !sign32(self.bits[j]),
            decreases N - i,
        {
            r[i] = self.bits[i] < 0x8000_0000;
            i = i + 1;
        }
        Mask { lanes: r }
    }

    /// IEEE `self < other`, lane by lane.
    pub fn simd_lt(self, other: Self) -> (r: Mask<N>)
        ensures
            forall|i: int| 0 <= i < N ==> r.lanes[i] == lt32(self.bits[i], other.bits[i]),
    {
        let mut r = [false; N];
        let mut i: usize = 0;
        while i < N
            invariant
                0 <= i <= N,
                forall|j: int| 0 <= j < i ==> r[j] == lt32(self.bits[j], other.bits[j]),
            decreases N - i,
        {
            r[i] = less32(self.bits[i], other.bits[i]);
            i = i + 1;
        }
        Mask { lanes: r }
    }

    /// IEEE `self == other`, lane by lane.
    pub fn simd_eq(self, other: Self) -> (r: Mask<N>)
        ensures
            forall|i: int| 0 <= i < N ==> r.lanes[i] == eq32(self.bits[i], other.bits[i]),
    {
        let mut r = [false; N];
        let mut i: usize = 0;
        while i < N
            invariant
                0 <= i <= N,
                forall|j: int| 0 <= j < i ==> r[j] == eq32(self.bits[j], other.bits[j]),
            decreases N - i,
        {
            r[i] = equal32(self.bits[i], other.bits[i]);
            i = i + 1;
        }
        Mask { lanes: r }
    }

    /// IEEE `self <= other`, lane by lane.
    pub fn simd_le(self, other: Self) -> (r: Mask<N>)
        ensures
            forall|i: int| 0 <= i < N ==> r.lanes[i] == (lt32(self.bits[i], other.bits[i]) || eq32(self.bits[i], other.bits[i])),
    {
        let mut r = [false; N];
        let mut i: usize = 0;
        while i < N
            invariant
                0 <= i <= N,
                forall|j: int| 0 <= j < i ==> r[j] == (lt32(self.bits[j], other.bits[j]) || eq32(self.bits[j], other.bits[j])),
            decreases N - i,
        {
            r[i] = less32(self.bits[i], other.bits[i]) || equal32(self.bits[i], other.bits[i]);
            i = i + 1;
        }
        Mask { lanes: r }
    }

    /// IEEE `self >= other`, lane by lane.
    pub fn simd_ge(self, other: Self) -> (r: Mask<N>)
        ensures
            forall|i: int| 0 <= i < N ==> r.lanes[i] == (lt32(other.bits[i], self.bits[i]) || eq32(other.bits[i], self.bits[i])),
    {
        let mut r = [false; N];
        let mut i: usize = 0;
        while i < N
            invariant
                0 <= i <= N,
                forall|j: int| 0 <= j < i ==> r[j] == (lt32(other.bits[j], self.bits[j]) || eq32(other.bits[j], self.bits[j])),
            decreases N - i,
        {
            r[i] = less32(other.bits[i], self.bits[i]) || equal32(other.bits[i], self.bits[i]);
            i = i + 1;
        }
        Mask { lanes: r }
    }
}

/// A lane vector of `N` binary64 values, each stored as its bit pattern.
#[derive(Clone, Copy, Debug, PartialEq, Eq)]
pub struct Lanes64<const N: usize> {
    pub bits: [u64; N],
}

impl<const N: usize> Lanes64<N> {
    /// The vector whose lanes have the given bit patterns.
    pub fn from_bits(bits: [u64; N]) -> (r: Self)
        ensures
            r.bits == bits,
    {
        Lanes64 { bits }
    }

    /// The bit patterns of the lanes.
    pub fn to_bits(self) -> (r: [u64; N])
        ensures
            r == self.bits,
    {
        self.bits
    }

    /// Every lane holds the pattern `b`.
    pub fn splat(b: u64) -> (r: Self)
        ensures
            forall|i: int| 0 <= i < N ==> r.bits[i] == b,
    {
        Lanes64 { bits: [b; N] }
    }

    /// Absolute value: each lane with its sign bit cleared.
    pub fn abs(self) -> (r: Self)
        ensures
            forall|i: int|
                0 <= i < N ==> {
                    &&& r.bits[i] as nat == self.bits[i] as nat % 0x8000_0000_0000_0000
                    &&& !sign64(r.bits[i])
                    &&& mag64(r.bits[i]) == mag64(self.bits[i])
                    &&& exp64(r.bits[i]) == exp64(self.bits[i])
                    &&& man64(r.bits[i]) == man64(self.bits[i])
                },
    {
        let mut r = self.bits;
        let mut i: usize = 0;
        while i < N
            invariant
                0 <= i <= N,
                forall|j: int|
                    0 <= j < i ==> {
                        &&& r[j] as nat == self.bits[j] as nat % 0x8000_0000_0000_0000
                        &&& !sign64(r[j])
                        &&& mag64(r[j]) == mag64(self.bits[j])
                        &&& exp64(r[j]) == exp64(self.bits[j])
                        &&& man64(r[j]) == man64(self.bits[j])
                    },
            decreases N - i,
        {
            r[i] = abs64(self.bits[i]);
            i = i + 1;
        }
        Lanes64 { bits: r }
    }

    /// Lanes holding a NaN.
    pub fn is_nan(self) -> (r: Mask<N>)
        ensures
            forall|i: int| 0 <= i < N ==> r.lanes[i] == is_nan64(self.bits[i]),
    {
        let mut r = [false; N];
        let mut i: usize = 0;
        while i < N
            invariant
                0 <= i <= N,
                forall|j: int| 0 <= j < i ==> r[j] == is_nan64(self.bits[j]),
            decreases N - i,
        {
            r[i] = nan64(self.bits[i]);
            i = i + 1;
        }
        Mask { lanes: r }
    }

    /// Lanes holding a finite value.
    pub fn is_finite(self) -> (r: Mask<N>)
        ensures
            forall|i: int| 0 <= i < N ==> r.lanes[i] == is_finite64(self.bits[i]),
    {
        let mut r = [false; N];
        let mut i: usize = 0;
        while i < N
            invariant
                0 <= i <= N,
                forall|j: int| 0 <= j < i ==> r[j] == is_finite64(self.bits[j]),
            decreases N - i,
        {
            r[i] = finite64(self.bits[i]);
            i = i + 1;
        }
        Mask { lanes: r }
    }

    /// Lanes whose sign bit is clear.
    pub fn is_sign_positive(self) -> (r: Mask<N>)
        ensures
            forall|i: int| 0 <= i < N ==> r.lanes[i] == !sign64(self.bits[i]),
    {
        let mut r = [false; N];
        let mut i: usize = 0;
        while i < N
            invariant
                0 <= i <= N,
                forall|j: int| 0 <= j < i ==> r[j] == !sign64(self.bits[j]),
            decreases N - i,
        {
            r[i] = self.bits[i] < 0x8000_0000_0000_0000;
            i = i + 1;
        }
        Mask { lanes: r }
    }

    /// IEEE `self < other`, lane by lane.
    pub fn simd_lt(self, other: Self) -> (r: Mask<N>)
        ensures
            forall|i: int| 0 <= i < N ==> r.lanes[i] == lt64(self.bits[i], other.bits[i]),
    {
        let mut r = [false; N];
        let mut i: usize = 0;
        while i < N
            invariant
                0 <= i <= N,
                forall|j: int| 0 <= j < i ==> r[j] == lt64(self.bits[j], other.bits[j]),
            decreases N - i,
        {
            r[i] = less64(self.bits[i], other.bits[i]);
            i = i + 1;
        }
        Mask { lanes: r }
    }

    /// IEEE `self == other`, lane by lane.
    pub fn simd_eq(self, other: Self) -> (r: Mask<N>)
        ensures
            forall|i: int| 0 <= i < N ==> r.lanes[i] == eq64(self.bits[i], other.bits[i]),
    {
        let mut r = [false; N];
        let mut i: usize = 0;
        while i < N
            invariant
                0 <= i <= N,
                forall|j: int| 0 <= j < i ==> r[j] == eq64(self.bits[j], other.bits[j]),
            decreases N - i,
        {
            r[i] = equal64(self.bits[i], other.bits[i]);
            i = i + 1;
        }
        Mask { lanes: r }
    }

    /// IEEE `self <= other`, lane by lane.
    pub fn simd_le(self, other: Self) -> (r: Mask<N>)
        ensures
            forall|i: int| 0 <= i < N ==> r.lanes[i] == (lt64(self.bits[i], other.bits[i]) || eq64(self.bits[i], other.bits[i])),
    {
        let mut r = [false; N];
        let mut i: usize = 0;
        while i < N
            invariant
                0 <= i <= N,
                forall|j: int| 0 <= j < i ==> r[j] == (lt64(self.bits[j], other.bits[j]) || eq64(self.bits[j], other.bits[j])),
            decreases N - i,
        {
            r[i] = less64(self.bits[i], other.bits[i]) || equal64(self.bits[i], other.bits[i]);
            i = i + 1;
        }
        Mask { lanes: r }
    }

    /// IEEE `self >= other`, lane by lane.
    pub fn simd_ge(self, other: Self) -> (r: Mask<N>)
        ensures
            forall|i: int| 0 <= i < N ==> r.lanes[i] == (lt64(other.bits[i], self.bits[i]) || eq64(other.bits[i], self.bits[i])),
    {
        let mut r = [false; N];
        let mut i: usize = 0;
        while i < N
            invariant
                0 <= i <= N,
                forall|j: int| 0 <= j < i ==> r[j] == (lt64(other.bits[j], self.bits[j]) || eq64(other.bits[j], self.bits[j])),
            decreases N - i,
        {
            r[i] = less64(other.bits[i], self.bits[i]) || equal64(other.bits[i], self.bits[i]);
            i = i + 1;
        }
        Mask { lanes: r }
    }
}

} // verus!
