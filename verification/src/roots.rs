//! Integer square roots: an element of a tensor-product basis with `n`
//! nodes has `sqrt(n)` nodes along each of the two axes.

use vstd::prelude::*;

verus! {

/// The largest `r` with `r * r <= n`.
pub open spec fn floor_sqrt(n: nat) -> nat
    decreases n,
{
    if n == 0 {
        0
    } else {
        let r = floor_sqrt((n - 1) as nat);
        if (r + 1) * (r + 1) <= n {
            r + 1
        } else {
            r
        }
    }
}

/// `sqrt(n)` rounded to the nearest integer (no tie can occur).
pub open spec fn round_sqrt(n: nat) -> nat
    decreases n,
{
    if n == 0 {
        0
    } else {
        let r = round_sqrt((n - 1) as nat);
        if n > r * (r + 1) {
            r + 1
        } else {
            r
        }
    }
}

/// `floor_sqrt(n)` is the floor of the square root of `n`.
pub proof fn lemma_floor_sqrt(n: nat)
    ensures
        floor_sqrt(n) * floor_sqrt(n) <= n < (floor_sqrt(n) + 1) * (floor_sqrt(n) + 1),
    decreases n,
{
    if n > 0 {
        lemma_floor_sqrt((n - 1) as nat);
        let r = floor_sqrt((n - 1) as nat);
        let f = floor_sqrt(n);
        if (r + 1) * (r + 1) <= n {
            assert(f == r + 1);
            assert(f * f <= n < (f + 1) * (f + 1)) by (nonlinear_arith)
                requires
                    f == r + 1,
                    (r + 1) * (r + 1) <= n,
                    n - 1 < (r + 1) * (r + 1),
            ;
        } else {
            assert(f == r);
            assert(f * f <= n < (f + 1) * (f + 1)) by (nonlinear_arith)
                requires
                    f == r,
                    r * r <= n - 1,
                    !((r + 1) * (r + 1) <= n),
            ;
        }
    } else {
        assert(floor_sqrt(0) == 0);
        assert(0nat * 0nat == 0 && 1nat * 1nat == 1) by (nonlinear_arith);
    }
}

/// The floor of the square root is the only `r` with `r * r <= n < (r + 1) * (r + 1)`.
pub proof fn lemma_floor_sqrt_unique(n: nat, r: nat)
    requires
        r * r <= n < (r + 1) * (r + 1),
    ensures
        floor_sqrt(n) == r,
{
    lemma_floor_sqrt(n);
    let f = floor_sqrt(n);
    if f < r {
        assert((f + 1) * (f + 1) <= r * r) by (nonlinear_arith)
            requires
                f + 1 <= r,
        ;
    } else if f > r {
        assert((r + 1) * (r + 1) <= f * f) by (nonlinear_arith)
            requires
                r + 1 <= f,
        ;
    }
}

/// For `n >= 1`, `round_sqrt(n)` is the `r >= 1` with `r * (r - 1) < n <= r * (r + 1)`,
/// that is `r - 1/2 < sqrt(n) < r + 1/2`.
pub proof fn lemma_round_sqrt(n: nat)
    requires
        n >= 1,
    ensures
        round_sqrt(n) >= 1,
        round_sqrt(n) * (round_sqrt(n) - 1) < n <= round_sqrt(n) * (round_sqrt(n) + 1),
    decreases n,
{
    if n == 1 {
        assert(round_sqrt(0) == 0);
        assert(round_sqrt(1) == 1);
    } else {
        lemma_round_sqrt((n - 1) as nat);
        let r = round_sqrt((n - 1) as nat);
        let f = round_sqrt(n);
        if n > r * (r + 1) {
            assert(f == r + 1);
            assert(f * (f - 1) < n <= f * (f + 1)) by (nonlinear_arith)
                requires
                    f == r + 1,
                    r >= 1,
                    n > r * (r + 1),
                    n - 1 <= r * (r + 1),
            ;
        } else {
            assert(f == r);
        }
    }
}

/// `round_sqrt(n)` is the only `r >= 1` with `r * (r - 1) < n <= r * (r + 1)`.
pub proof fn lemma_round_sqrt_unique(n: nat, r: nat)
    requires
        r >= 1,
        r * (r - 1) < n <= r * (r + 1),
    ensures
        round_sqrt(n) == r,
{
    lemma_round_sqrt(n);
    let f = round_sqrt(n);
    if f < r {
        assert(f * (f + 1) <= r * (r - 1)) by (nonlinear_arith)
            requires
                f + 1 <= r,
                f >= 1,
        ;
    } else if f > r {
        assert(r * (r + 1) <= f * (f - 1)) by (nonlinear_arith)
            requires
                r + 1 <= f,
                r >= 1,
        ;
    }
}

/// `min(floor_sqrt(n), 255)`.
pub fn floor_sqrt_capped(n: usize) -> (r: usize)
    ensures
        r as nat == if floor_sqrt(n as nat) < 255 {
            floor_sqrt(n as nat)
        } else {
            255
        },
{
    let mut r: usize = 0;
    let mut done = false;
    while !done && r < 255
        invariant
            r <= 255,
            r * r <= n,
            done ==> n < (r + 1) * (r + 1),
        decreases 255 - r + (if done { 0int } else { 1int }),
    {
        let s = r + 1;
        assert(s * s <= 65536) by (nonlinear_arith)
            requires
                s <= 255,
        ;
        if s * s <= n {
            r = s;
        } else {
            done = true;
        }
    }
    proof {
        if r < 255 {
            lemma_floor_sqrt_unique(n as nat, r as nat);
        } else {
            lemma_floor_sqrt(n as nat);
            let f = floor_sqrt(n as nat);
            if f < 255 {
                assert((f + 1) * (f + 1) <= 255 * 255) by (nonlinear_arith)
                    requires
                        f + 1 <= 255,
                ;
            }
        }
    }
    r
}

/// `round_sqrt(n)` for the small `n` that element node counts take.
pub fn round_sqrt_small(n: usize) -> (r: usize)
    requires
        1 <= n <= 4096,
    ensures
        r as nat == round_sqrt(n as nat),
{
    let mut r: usize = 0;
    let mut done = false;
    while !done
        invariant
            1 <= n <= 4096,
            r <= 64,
            r * (r - 1) < n,
            done ==> n <= r * (r + 1),
        decreases 64 - r + (if done { 0int } else { 1int }),
    {
        assert(r * (r + 1) <= 64 * 65) by (nonlinear_arith)
            requires
                r <= 64,
        ;
        let p = r * (r + 1);
        if p < n {
            assert(r < 64) by (nonlinear_arith)
                requires
                    r * (r + 1) < n,
                    n <= 4096,
                    r <= 64,
            ;
            assert((r + 1) * r == r * (r + 1)) by (nonlinear_arith);
            r = r + 1;
        } else {
            done = true;
        }
    }
    proof {
        lemma_round_sqrt_unique(n as nat, r as nat);
    }
    r
}


/// Law: an element with `k * k` nodes has `k` nodes along each axis.
pub proof fn lemma_floor_sqrt_of_square(k: nat)
    ensures
        floor_sqrt(k * k) == k,
{
    assert(k * k < (k + 1) * (k + 1)) by (nonlinear_arith);
    lemma_floor_sqrt_unique(k * k, k);
}

/// Law: rounding the square root of `k * k` also gives `k`.
pub proof fn lemma_round_sqrt_of_square(k: nat)
    requires
        k >= 1,
    ensures
        round_sqrt(k * k) == k,
{
    assert(k * (k - 1) < k * k <= k * (k + 1)) by (nonlinear_arith)
        requires
            k >= 1,
    ;
    lemma_round_sqrt_unique(k * k, k);
}

} // verus!
