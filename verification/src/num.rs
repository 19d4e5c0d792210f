use vstd::prelude::*;

use vstd::arithmetic::div_mod::lemma_div_is_ordered;
use vstd::arithmetic::div_mod::lemma_div_multiples_vanish;
use vstd::arithmetic::div_mod::lemma_fundamental_div_mod_converse;

verus! {

/// Integer division rounding towards zero, as the `/` operator computes it
/// on signed machine integers. The collision arithmetic below is specified
/// in terms of this function.
pub open spec fn div_trunc(n: int, d: int) -> int {
    if n >= 0 {
        n / d
    } else {
        -((-n) / d)
    }
}

/// Truncating division cannot enlarge a bound: if `|n| <= b * d` then
/// `|n / d| <= b`.
pub proof fn lemma_div_trunc_bound(n: int, d: int, b: int)
    requires
        d > 0,
        b >= 0,
        -(b * d) <= n <= b * d,
    ensures
        -b <= div_trunc(n, d) <= b,
{
    lemma_div_multiples_vanish(b, d);
    assert(b * d == d * b) by (nonlinear_arith);
    if n >= 0 {
        lemma_div_is_ordered(n, b * d, d);
        assert(n / d >= 0) by (nonlinear_arith)
            requires
                n >= 0,
                d > 0,
        ;
    } else {
        lemma_div_is_ordered(-n, b * d, d);
        assert((-n) / d >= 0) by (nonlinear_arith)
            requires
                -n >= 0,
                d > 0,
        ;
    }
}

/// When the divisor divides the dividend exactly, truncating division is the
/// exact quotient.
pub proof fn lemma_div_trunc_exact(n: int, d: int, q: int)
    requires
        d > 0,
        n == q * d,
    ensures
        div_trunc(n, d) == q,
{
    if n >= 0 {
        lemma_fundamental_div_mod_converse(n, d, q, 0);
    } else {
        assert(-n == (-q) * d + 0) by (nonlinear_arith)
            requires
                n == q * d,
        ;
        lemma_fundamental_div_mod_converse(-n, d, -q, 0);
    }
}

/// Negating the dividend negates a truncating quotient.
pub proof fn lemma_div_trunc_neg(n: int, d: int)
    requires
        d > 0,
    ensures
        div_trunc(-n, d) == -div_trunc(n, d),
{
    if n == 0 {
        lemma_div_multiples_vanish(0, d);
        assert(d * 0 == 0int);
        assert(0int / d == 0int);
    } else if n > 0 {
        assert(div_trunc(n, d) == n / d);
        assert(div_trunc(-n, d) == -(n / d));
    } else {
        assert(div_trunc(n, d) == -((-n) / d));
        assert(div_trunc(-n, d) == (-n) / d);
    }
}

/// Truncating division leaves a remainder smaller than the divisor.
pub proof fn lemma_div_trunc_rem(n: int, d: int)
    requires
        d > 0,
    ensures
        -d < n - div_trunc(n, d) * d < d,
{
    if n >= 0 {
        vstd::arithmetic::div_mod::lemma_fundamental_div_mod(n, d);
        vstd::arithmetic::div_mod::lemma_mod_bound(n, d);
        assert(n - (n / d) * d == n % d) by (nonlinear_arith)
            requires
                n == d * (n / d) + n % d,
        ;
    } else {
        vstd::arithmetic::div_mod::lemma_fundamental_div_mod(-n, d);
        vstd::arithmetic::div_mod::lemma_mod_bound(-n, d);
        assert(n - (-((-n) / d)) * d == -((-n) % d)) by (nonlinear_arith)
            requires
                -n == d * ((-n) / d) + (-n) % d,
        ;
    }
}

/// When the divisor divides the dividend, truncating division inverts the
/// multiplication exactly.
pub proof fn lemma_div_trunc_divides(n: int, d: int)
    requires
        d > 0,
        n % d == 0,
    ensures
        div_trunc(n, d) * d == n,
{
    vstd::arithmetic::div_mod::lemma_fundamental_div_mod(n, d);
    assert(n == (n / d) * d) by (nonlinear_arith)
        requires
            n == d * (n / d) + n % d,
            n % d == 0,
    ;
    lemma_div_trunc_exact(n, d, n / d);
}

/// Division rounding towards zero on machine integers; `n > i64::MIN` rules
/// out the one overflowing case.
pub fn div_trunc_i64(n: i64, d: i64) -> (r: i64)
    requires
        d > 0,
        -i64::MAX <= n,
    ensures
        r == div_trunc(n as int, d as int),
{
    n / d
}

/// Division rounding towards zero on wide machine integers; `n > i128::MIN`
/// rules out the one overflowing case.
pub fn div_trunc_i128(n: i128, d: i128) -> (r: i128)
    requires
        d > 0,
        -i128::MAX <= n,
    ensures
        r == div_trunc(n as int, d as int),
{
    n / d
}

/// `r` is the integer square root of `n`: the largest integer whose square
/// does not exceed `n`.
pub open spec fn is_sqrt(n: int, r: int) -> bool {
    0 <= r && r * r <= n && n < (r + 1) * (r + 1)
}

/// The integer square root of a nonnegative integer, as a specification
/// value.
pub open spec fn sqrt_floor(n: int) -> int {
    choose|r: int| is_sqrt(n, r)
}

/// Every nonnegative integer has an integer square root, so `sqrt_floor` is
/// a root wherever its argument is nonnegative.
pub proof fn lemma_sqrt_floor_exists(n: int)
    requires
        0 <= n,
    ensures
        is_sqrt(n, sqrt_floor(n)),
    decreases n,
{
    if n == 0 {
        assert(is_sqrt(0, 0)) by (nonlinear_arith);
        lemma_sqrt_floor_is(0, 0);
    } else {
        lemma_sqrt_floor_exists(n - 1);
        let r = sqrt_floor(n - 1);
        if n < (r + 1) * (r + 1) {
            assert(is_sqrt(n, r));
            lemma_sqrt_floor_is(n, r);
        } else {
            assert(is_sqrt(n, r + 1)) by (nonlinear_arith)
                requires
                    is_sqrt(n - 1, r),
                    (r + 1) * (r + 1) <= n,
            ;
            lemma_sqrt_floor_is(n, r + 1);
        }
    }
}

/// The integer square root is unique, so exhibiting any root pins
/// `sqrt_floor` down.
pub proof fn lemma_sqrt_floor_is(n: int, r: int)
    requires
        is_sqrt(n, r),
    ensures
        sqrt_floor(n) == r,
{
    assert(exists|q: int| is_sqrt(n, q));
    let q = sqrt_floor(n);
    assert(is_sqrt(n, q));
    assert(q == r) by (nonlinear_arith)
        requires
            0 <= q,
            q * q <= n,
            n < (q + 1) * (q + 1),
            0 <= r,
            r * r <= n,
            n < (r + 1) * (r + 1),
    ;
}

/// The integer square root: the largest `r` with `r * r <= n`.
pub fn isqrt(n: u64) -> (r: u64)
    ensures
        r * r <= n,
        n < (r + 1) * (r + 1),
        r <= 0xffff_ffff,
        r == sqrt_floor(n as int),
{
    let mut lo: u64 = 0;
    let mut hi: u64 = 0xffff_ffff;
    proof {
        assert((hi + 1) * (hi + 1) > u64::MAX) by (nonlinear_arith)
            requires
                hi == 0xffff_ffffu64,
        ;
    }
    while lo < hi
        invariant
            lo <= hi <= 0xffff_ffff,
            lo * lo <= n,
            n < (hi + 1) * (hi + 1),
        decreases hi - lo,
    {
        let mid: u64 = lo + (hi - lo + 1) / 2;
        proof {
            assert(lo < mid <= hi);
            assert(mid * mid <= 0xffff_ffff * 0xffff_ffff) by (nonlinear_arith)
                requires
                    mid <= 0xffff_ffff,
            ;
        }
        if mid * mid <= n {
            lo = mid;
        } else {
            hi = mid - 1;
        }
    }
    proof {
        lemma_sqrt_floor_is(n as int, lo as int);
    }
    lo
}

} // verus!
