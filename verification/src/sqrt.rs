use vstd::prelude::*;

verus! {

/// The integer square root: the largest `r` with `r * r <= n`.
pub open spec fn sqrt_floor(n: nat) -> nat
    decreases n,
{
    if n == 0 {
        0
    } else {
        let r = sqrt_floor((n - 1) as nat);
        if (r + 1) * (r + 1) <= n {
            r + 1
        } else {
            r
        }
    }
}

/// `sqrt_floor` is squeezed between the two adjacent squares.
pub proof fn lemma_sqrt_floor(n: nat)
    ensures
        sqrt_floor(n) * sqrt_floor(n) <= n,
        n < (sqrt_floor(n) + 1) * (sqrt_floor(n) + 1),
    decreases n,
{
    if n == 0 {
        assert(sqrt_floor(n) == 0);
        assert(n < (sqrt_floor(n) + 1) * (sqrt_floor(n) + 1)) by (nonlinear_arith)
            requires n == 0 && sqrt_floor(n) == 0;
    } else {
        lemma_sqrt_floor((n - 1) as nat);
        let r = sqrt_floor((n - 1) as nat);
        assert(sqrt_floor(n) == if (r + 1) * (r + 1) <= n { r + 1 } else { r });
        if (r + 1) * (r + 1) <= n {
            assert(n < (r + 1 + 1) * (r + 1 + 1)) by (nonlinear_arith)
                requires n <= (r + 1) * (r + 1);
        }
    }
}

/// Whatever sits between two adjacent squares is the square root.
pub proof fn lemma_sqrt_floor_unique(n: nat, r: nat)
    requires
        r * r <= n,
        n < (r + 1) * (r + 1),
    ensures
        r == sqrt_floor(n),
{
    let s = sqrt_floor(n);
    lemma_sqrt_floor(n);
    if s < r {
        assert((s + 1) * (s + 1) <= r * r) by (nonlinear_arith)
            requires s + 1 <= r;
    }
    if r < s {
        assert((r + 1) * (r + 1) <= s * s) by (nonlinear_arith)
            requires r + 1 <= s;
    }
}

/// A square below `n` bounds the root from below.
pub proof fn lemma_sqrt_floor_ge(n: nat, k: nat)
    requires
        k * k <= n,
    ensures
        sqrt_floor(n) >= k,
{
    let s = sqrt_floor(n);
    lemma_sqrt_floor(n);
    if s < k {
        assert((s + 1) * (s + 1) <= k * k) by (nonlinear_arith)
            requires s + 1 <= k;
    }
}

/// A square above `n` bounds the root from above.
pub proof fn lemma_sqrt_floor_le(n: nat, k: nat)
    requires
        n < (k + 1) * (k + 1),
    ensures
        sqrt_floor(n) <= k,
{
    let s = sqrt_floor(n);
    lemma_sqrt_floor(n);
    if k < s {
        assert((k + 1) * (k + 1) <= s * s) by (nonlinear_arith)
            requires k + 1 <= s;
    }
}

/// Integer square root by bisection.
pub fn isqrt(n: u64) -> (r: u64)
    requires
        n < 0x4000_0000_0000_0000,
    ensures
        r == sqrt_floor(n as nat),
        r * r <= n,
        n < (r + 1) * (r + 1),
{
    if n == 0 {
        proof {
            assert(0nat < (0nat + 1) * (0nat + 1)) by (nonlinear_arith);
            lemma_sqrt_floor_unique(0, 0);
        }
        return 0;
    }
    let mut lo: u64 = 0;
    let mut hi: u64 = 0x8000_0000;
    proof {
        assert((0x8000_0000u64 as int) * (0x8000_0000u64 as int) > n as int) by (nonlinear_arith)
            requires n < 0x4000_0000_0000_0000;
    }
    while lo + 1 < hi
        invariant
            lo < hi <= 0x8000_0000,
            (lo as int) * (lo as int) <= n as int,
            (n as int) < (hi as int) * (hi as int),
        decreases hi - lo,
    {
        let mid: u64 = lo + (hi - lo) / 2;
        proof {
            assert((mid as int) * (mid as int) <= 0x4000_0000_0000_0000) by (nonlinear_arith)
                requires mid <= 0x8000_0000;
        }
        if mid * mid <= n {
            lo = mid;
        } else {
            hi = mid;
        }
    }
    proof {
        lemma_sqrt_floor_unique(n as nat, lo as nat);
        lemma_sqrt_floor(n as nat);
    }
    lo
}

} // verus!
