//! Integer arithmetic that the geometry of generation and vision needs.

use vstd::prelude::*;
use vstd::arithmetic::div_mod::lemma_div_is_ordered;

verus! {

/// The quotient of `a` by a positive `b`, rounded toward zero.
pub open spec fn div_toward_zero(a: int, b: int) -> int {
    if a >= 0 {
        a / b
    } else {
        -((-a) / b)
    }
}

/// Rounding toward zero keeps the order of the dividends.
pub proof fn lemma_div_toward_zero_monotone(a: int, b: int, d: int)
    requires
        a <= b,
        d >= 1,
    ensures
        div_toward_zero(a, d) <= div_toward_zero(b, d),
{
    if a >= 0 {
        lemma_div_is_ordered(a, b, d);
    } else if b < 0 {
        lemma_div_is_ordered(-b, -a, d);
    }
}

/// Divides by a positive number, rounding toward zero.
pub fn divide_toward_zero(a: i128, b: i128) -> (r: i128)
    requires
        b > 0,
        a > i128::MIN,
    ensures
        r == div_toward_zero(a as int, b as int),
{
    if a >= 0 {
        let q: u128 = (a as u128) / (b as u128);
        proof {
            assert(q <= a) by (nonlinear_arith)
                requires
                    q == (a as int) / (b as int),
                    a >= 0,
                    b > 0,
            ;
        }
        q as i128
    } else {
        let n: u128 = (-a) as u128;
        let q: u128 = n / (b as u128);
        proof {
            assert(q <= n) by (nonlinear_arith)
                requires
                    q == (n as int) / (b as int),
                    n >= 0,
                    b > 0,
            ;
        }
        -(q as i128)
    }
}

/// The largest number up to `cap` whose square does not exceed `n`; zero
/// if `n` is negative.
pub open spec fn capped_root(n: int, cap: nat) -> int
    decreases cap,
{
    if cap == 0 {
        0
    } else if cap * cap <= n {
        cap as int
    } else {
        capped_root(n, (cap - 1) as nat)
    }
}

/// What characterises the capped root: its square does not exceed `n`, and
/// unless it is the cap itself, the square of its successor does.
pub proof fn lemma_capped_root(n: int, cap: nat, r: int)
    requires
        0 <= r <= cap,
        r * r <= n,
        r < cap ==> n < (r + 1) * (r + 1),
    ensures
        capped_root(n, cap) == r,
    decreases cap,
{
    if cap > 0 && r < cap {
        assert(cap * cap > n) by (nonlinear_arith)
            requires
                n < (r + 1) * (r + 1),
                0 <= r < cap,
        ;
        lemma_capped_root(n, (cap - 1) as nat, r);
    }
}

/// Computes the integer square root of `n`, capped at `cap`.
pub fn capped_sqrt(n: u128, cap: u64) -> (r: u64)
    ensures
        r == capped_root(n as int, cap as nat),
        r <= cap,
        r * r <= n,
        r < cap ==> n < (r + 1) * (r + 1),
{
    let mut lo: u64 = 0;
    let mut hi: u128 = cap as u128 + 1;
    while hi - lo as u128 > 1
        invariant
            lo < hi <= cap + 1,
            lo * lo <= n,
            hi <= cap ==> n < hi * hi,
        decreases hi - lo,
    {
        let mid: u128 = lo as u128 + (hi - lo as u128) / 2;
        proof {
            assert(mid * mid <= 0xffff_ffff_ffff_ffff * 0xffff_ffff_ffff_ffff) by (nonlinear_arith)
                requires
                    0 <= mid <= 0xffff_ffff_ffff_ffff,
            ;
        }
        if mid * mid <= n {
            lo = mid as u64;
        } else {
            hi = mid;
        }
    }
    proof {
        lemma_capped_root(n as int, cap as nat, lo as int);
    }
    lo
}

/// The capped root is what its name says: it lies between zero and the cap,
/// its square does not exceed `n`, and unless it is the cap itself, the
/// square of its successor does.
pub proof fn lemma_capped_root_bounds(n: int, cap: nat)
    requires
        n >= 0,
    ensures
        0 <= capped_root(n, cap) <= cap,
        capped_root(n, cap) * capped_root(n, cap) <= n,
        capped_root(n, cap) < cap ==> n < (capped_root(n, cap) + 1) * (capped_root(n, cap) + 1),
    decreases cap,
{
    if cap > 0 && cap * cap > n {
        lemma_capped_root_bounds(n, (cap - 1) as nat);
    }
}

/// The capped root does not fall as `n` grows.
pub proof fn lemma_capped_root_monotone(m: int, n: int, cap: nat)
    requires
        0 <= m <= n,
    ensures
        capped_root(m, cap) <= capped_root(n, cap),
{
    let a = capped_root(m, cap);
    let b = capped_root(n, cap);
    lemma_capped_root_bounds(m, cap);
    lemma_capped_root_bounds(n, cap);
    if a > b {
        assert((b + 1) * (b + 1) <= a * a) by (nonlinear_arith)
            requires
                0 <= b,
                b + 1 <= a,
        ;
    }
}

/// Computes the integer square root of `n`: the largest number whose square
/// does not exceed `n`.
pub fn int_sqrt(n: u64) -> (r: u64)
    ensures
        r * r <= n < (r + 1) * (r + 1),
        r <= 0xffff_ffff,
{
    let r: u64 = capped_sqrt(n as u128, 0xffff_ffff);
    proof {
        assert(n < 0x1_0000_0000 * 0x1_0000_0000);
    }
    r
}

} // verus!
