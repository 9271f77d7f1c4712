use vstd::prelude::*;

verus! {

/// Division rounding up, for a non-negative numerator and positive divisor.
pub open spec fn div_ceil(p: int, q: int) -> int {
    (p + q - 1) / q
}

/// The quotient is at most `r` when the numerator stays under `(r + 1) * q`.
pub proof fn lemma_div_le(p: int, q: int, r: int)
    requires
        0 <= p,
        0 < q,
        p < (r + 1) * q,
    ensures
        p / q <= r,
{
    assert(p / q <= r) by (nonlinear_arith)
        requires 0 <= p && 0 < q && p < (r + 1) * q;
}

/// The quotient is at least `r` when the numerator reaches `r * q`.
pub proof fn lemma_div_ge(p: int, q: int, r: int)
    requires
        0 < q,
        0 <= r,
        r * q <= p,
    ensures
        p / q >= r,
{
    assert(p / q >= r) by (nonlinear_arith)
        requires 0 < q && 0 <= r && r * q <= p;
}

/// Basic bounds of flooring division.
pub proof fn lemma_div_mul_le(p: int, q: int)
    requires
        0 <= p,
        0 < q,
    ensures
        q * (p / q) <= p,
        0 <= p / q <= p,
{
    assert(q * (p / q) <= p && 0 <= p / q && p / q <= p) by (nonlinear_arith)
        requires 0 <= p && 0 < q;
}

/// Rounding up reaches the numerator, and behaves at the extremes.
pub proof fn lemma_div_ceil_bounds(p: int, q: int)
    requires
        0 <= p,
        0 < q,
    ensures
        div_ceil(p, q) >= 0,
        q * div_ceil(p, q) >= p,
        p > 0 ==> div_ceil(p, q) >= 1,
{
    assert(0 <= (p + q - 1) / q && q * ((p + q - 1) / q) >= p && (p > 0 ==> (p + q - 1) / q >= 1))
        by (nonlinear_arith)
        requires 0 <= p && 0 < q;
}

} // verus!
