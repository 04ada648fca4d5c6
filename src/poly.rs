//! Estrin's scheme for polynomial evaluation, stated over exact arithmetic.
//!
//! The kernels evaluate their polynomial cores by splitting the coefficients
//! into even- and odd-indexed halves, evaluating each half in `x^2`, and
//! joining them with one multiply-add: `odd(x^2) * x + even(x^2)`. This module
//! defines that recursion and proves that, without rounding, it computes the
//! polynomial itself.
use vstd::prelude::*;

verus! {

/// `c[0] + c[1] x + c[2] x^2 + ...` (coefficients lowest degree first).
pub open spec fn poly_value(c: Seq<int>, x: int) -> int
    decreases c.len(),
{
    if c.len() == 0 {
        0
    } else {
        c[0] + x * poly_value(c.drop_first(), x)
    }
}

/// The even-indexed coefficients `c[0], c[2], ...`.
pub open spec fn evens(c: Seq<int>) -> Seq<int> {
    Seq::new(((c.len() + 1) / 2) as nat, |i: int| c[2 * i])
}

/// The odd-indexed coefficients `c[1], c[3], ...`.
pub open spec fn odds(c: Seq<int>) -> Seq<int> {
    Seq::new((c.len() / 2) as nat, |i: int| c[2 * i + 1])
}

/// Estrin's scheme: one coefficient is itself, two are `c1 x + c0`, more are
/// split into odd and even halves evaluated in `x^2`.
pub open spec fn estrin(c: Seq<int>, x: int) -> int
    decreases c.len(),
{
    if c.len() == 0 {
        0
    } else if c.len() == 1 {
        c[0]
    } else if c.len() == 2 {
        c[1] * x + c[0]
    } else {
        x * estrin(odds(c), x * x) + estrin(evens(c), x * x)
    }
}

/// A polynomial is its even part in `x^2` plus `x` times its odd part in `x^2`.
pub proof fn lemma_even_odd_split(c: Seq<int>, x: int)
    ensures
        poly_value(c, x) == poly_value(evens(c), x * x) + x * poly_value(odds(c), x * x),
    decreases c.len(),
{
    if c.len() == 0 {
        assert(evens(c).len() == 0);
        assert(odds(c).len() == 0);
    } else {
        let rest = c.drop_first();
        lemma_even_odd_split(rest, x);
        let e = evens(c);
        let o = odds(c);
        assert(e.drop_first() =~= odds(rest));
        assert(o =~= evens(rest));
        assert(e[0] == c[0]);
        let a = poly_value(evens(rest), x * x);
        let b = poly_value(odds(rest), x * x);
        assert(poly_value(e, x * x) == c[0] + (x * x) * b);
        assert(poly_value(c, x) == c[0] + x * (a + x * b));
        assert(x * (a + x * b) == (x * x) * b + x * a) by (nonlinear_arith);
    }
}

/// Without rounding, Estrin's scheme computes the polynomial.
pub proof fn lemma_estrin_is_polynomial(c: Seq<int>, x: int)
    ensures
        estrin(c, x) == poly_value(c, x),
    decreases c.len(),
{
    if c.len() == 0 {
    } else if c.len() == 1 {
        assert(c.drop_first().len() == 0);
        assert(poly_value(c.drop_first(), x) == 0);
    } else if c.len() == 2 {
        let r = c.drop_first();
        assert(r.drop_first().len() == 0);
        assert(poly_value(r.drop_first(), x) == 0);
        assert(poly_value(r, x) == c[1]);
        assert(x * c[1] == c[1] * x) by (nonlinear_arith);
    } else {
        lemma_estrin_is_polynomial(odds(c), x * x);
        lemma_estrin_is_polynomial(evens(c), x * x);
        lemma_even_odd_split(c, x);
    }
}

} // verus!
