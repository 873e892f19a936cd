//! Alignment arithmetic on byte counts.

use vstd::prelude::*;
use vstd::arithmetic::div_mod::*;

verus! {

/// The largest multiple of `n` that is at most `x`.
pub open spec fn spec_down_to_nearest(x: int, n: int) -> int {
    x - x % n
}

/// The smallest multiple of `n` that is at least `x`.
pub open spec fn spec_up_to_nearest(x: int, n: int) -> int {
    if x % n == 0 {
        x
    } else {
        x - x % n + n
    }
}

/// `spec_down_to_nearest(x, n)` is `floor(x / n) * n`, a multiple of `n` within
/// `n` of `x` from below.
pub proof fn lemma_down_to_nearest(x: int, n: int)
    requires
        0 <= x,
        0 < n,
    ensures
        spec_down_to_nearest(x, n) == (x / n) * n,
        spec_down_to_nearest(x, n) % n == 0,
        0 <= spec_down_to_nearest(x, n) <= x,
        x - spec_down_to_nearest(x, n) < n,
        spec_down_to_nearest(x, n) / n == x / n,
{
    lemma_fundamental_div_mod(x, n);
    lemma_mod_multiples_basic(x / n, n);
    assert((x / n) * n == n * (x / n)) by (nonlinear_arith);
    lemma_div_multiples_vanish(x / n, n);
}

/// `spec_up_to_nearest(x, n)` is `ceil(x / n) * n`, a multiple of `n` within
/// `n` of `x` from above.
pub proof fn lemma_up_to_nearest(x: int, n: int)
    requires
        0 <= x,
        0 < n,
    ensures
        spec_up_to_nearest(x, n) == ((x + n - 1) / n) * n,
        spec_up_to_nearest(x, n) % n == 0,
        x <= spec_up_to_nearest(x, n) < x + n,
{
    lemma_fundamental_div_mod(x, n);
    let q = x / n;
    let r = x % n;
    if r == 0 {
        assert(q * n == n * q) by (nonlinear_arith);
        assert(x + n - 1 == q * n + (n - 1));
        lemma_fundamental_div_mod_converse(x + n - 1, n, q, n - 1);
        lemma_mod_multiples_basic(q, n);
    } else {
        assert((q + 1) * n == n * q + n) by (nonlinear_arith);
        assert(x + n - 1 == (q + 1) * n + (r - 1));
        lemma_fundamental_div_mod_converse(x + n - 1, n, q + 1, r - 1);
        lemma_mod_multiples_basic(q + 1, n);
    }
}

/// No multiple of `n` lies between `x` and `spec_up_to_nearest(x, n)`.
pub proof fn lemma_up_to_nearest_least(x: int, n: int, m: int)
    requires
        0 <= x,
        0 < n,
        x <= m,
        m % n == 0,
    ensures
        spec_up_to_nearest(x, n) <= m,
{
    lemma_fundamental_div_mod(x, n);
    lemma_fundamental_div_mod(m, n);
    let q = m / n;
    let p = x / n;
    if x % n != 0 {
        assert(n * q >= n * p + n) by (nonlinear_arith)
            requires
                n * q >= n * p + x % n,
                0 < x % n < n,
                n > 0,
        ;
    }
}

/// A multiple of a multiple of `n` is a multiple of `n`.
pub proof fn lemma_multiple_of_multiple(x: int, m: int, n: int)
    requires
        0 < n,
        0 < m,
        m % n == 0,
        x % m == 0,
    ensures
        x % n == 0,
{
    lemma_fundamental_div_mod(m, n);
    let b = m / n;
    assert(b > 0) by (nonlinear_arith)
        requires
            m == n * b,
            m > 0,
            n > 0,
    ;
    lemma_multiple_of_product(x, n, b);
}

/// Rounds `x` down to a multiple of `nearest`.
pub fn down_to_nearest(x: usize, nearest: usize) -> (r: usize)
    requires
        nearest > 0,
    ensures
        r == spec_down_to_nearest(x as int, nearest as int),
{
    proof {
        lemma_down_to_nearest(x as int, nearest as int);
    }
    x - (x % nearest)
}

/// Rounds `x` up to a multiple of `nearest`.
pub fn up_to_nearest(x: usize, nearest: usize) -> (r: usize)
    requires
        nearest > 0,
        spec_up_to_nearest(x as int, nearest as int) <= usize::MAX,
    ensures
        r == spec_up_to_nearest(x as int, nearest as int),
{
    proof {
        lemma_down_to_nearest(x as int, nearest as int);
    }
    let rem: usize = x % nearest;
    if rem == 0 {
        x
    } else {
        x - rem + nearest
    }
}

/// Rounds `x` up to a multiple of `nearest`, where that fits in `usize`.
pub fn checked_up_to_nearest(x: usize, nearest: usize) -> (r: Option<usize>)
    requires
        nearest > 0,
    ensures
        match r {
            Some(v) => v == spec_up_to_nearest(x as int, nearest as int),
            None => spec_up_to_nearest(x as int, nearest as int) > usize::MAX,
        },
{
    proof {
        lemma_down_to_nearest(x as int, nearest as int);
    }
    let rem: usize = x % nearest;
    if rem == 0 {
        Some(x)
    } else {
        (x - rem).checked_add(nearest)
    }
}

/// `m` is a positive common multiple of the positive numbers `a` and `b`.
pub open spec fn is_common_multiple(m: int, a: int, b: int) -> bool {
    m > 0 && a > 0 && b > 0 && m % a == 0 && m % b == 0
}

/// `m` is the least common multiple of `a` and `b`. Where one of them is zero,
/// that is zero.
pub open spec fn is_lcm(m: int, a: int, b: int) -> bool {
    if a == 0 || b == 0 {
        m == 0
    } else {
        is_common_multiple(m, a, b) && forall|k: int|
            is_common_multiple(k, a, b) ==> m <= k
    }
}

/// The least common multiple of `a` and `b` fits in `usize`.
pub open spec fn lcm_fits(a: int, b: int) -> bool {
    exists|k: usize| is_lcm(k as int, a, b)
}

/// Two numbers have at most one least common multiple.
pub proof fn lemma_lcm_unique(m1: int, m2: int, a: int, b: int)
    requires
        is_lcm(m1, a, b),
        is_lcm(m2, a, b),
    ensures
        m1 == m2,
{
}

/// The least common multiple fits in `usize` exactly where `lcm_fits` says so.
pub proof fn lemma_lcm_fits(m: int, a: int, b: int)
    requires
        is_lcm(m, a, b),
    ensures
        lcm_fits(a, b) <==> 0 <= m <= usize::MAX,
{
    if lcm_fits(a, b) {
        let fitting: usize = choose|k: usize| is_lcm(k as int, a, b);
        lemma_lcm_unique(m, fitting as int, a, b);
    }
    if 0 <= m <= usize::MAX {
        assert(is_lcm((m as usize) as int, a, b));
    }
}

/// Below any common multiple `n` of `a` and `b` lies their least one.
pub proof fn lemma_lcm_below(n: int, a: int, b: int)
    requires
        is_common_multiple(n, a, b),
    ensures
        exists|m: int| 0 < m <= n && is_lcm(m, a, b),
    decreases n,
{
    if forall|k: int| is_common_multiple(k, a, b) ==> n <= k {
        assert(0 < n <= n && is_lcm(n, a, b));
    } else {
        let k = choose|k: int| is_common_multiple(k, a, b) && !(n <= k);
        lemma_lcm_below(k, a, b);
        let m = choose|m: int| 0 < m <= k && is_lcm(m, a, b);
        assert(0 < m <= n && is_lcm(m, a, b));
    }
}

/// Two positive numbers have a least common multiple, and it is at most their
/// product.
pub proof fn lemma_lcm_exists(a: int, b: int)
    requires
        a > 0,
        b > 0,
    ensures
        exists|m: int| 0 < m <= a * b && is_lcm(m, a, b),
{
    assert(a * b > 0) by (nonlinear_arith)
        requires
            a > 0,
            b > 0,
    ;
    lemma_mod_multiples_basic(b, a);
    lemma_mod_multiples_basic(a, b);
    assert(a * b == b * a) by (nonlinear_arith);
    assert(is_common_multiple(a * b, a, b));
    lemma_lcm_below(a * b, a, b);
}

/// A multiple of `a * b` is a multiple of `a`.
pub proof fn lemma_multiple_of_product(x: int, a: int, b: int)
    requires
        a > 0,
        b > 0,
        x % (a * b) == 0,
    ensures
        x % a == 0,
{
    lemma_mod_mod(x, a, b);
    lemma_small_mod(0, a as nat);
}

/// Floored division, by `num::integer::div_floor`. On `usize` that is `x / y`;
/// it panics on a zero divisor, which `requires` leaves out.
#[verifier::external_body]
pub(crate) fn div_floor(x: usize, y: usize) -> (q: usize)
    requires
        y > 0,
    ensures
        q == x / y,
{
    num::integer::div_floor(x, y)
}

/// Ceiled division, by `num::integer::div_ceil`. On `usize` that is `x / y`,
/// and one more where `y` does not divide `x`; it panics on a zero divisor,
/// which `requires` leaves out.
#[verifier::external_body]
pub(crate) fn div_ceil(x: usize, y: usize) -> (q: usize)
    requires
        y > 0,
    ensures
        q == x / y + if x % y == 0 { 0int } else { 1int },
{
    num::integer::div_ceil(x, y)
}

/// The least common multiple, by `num::integer::lcm`, computed in `u128`. The
/// function computes `x * (y / gcd(x, y))`, and zero where both are zero. For
/// numbers of at most 64 bits the product is below 2^128, so it cannot
/// overflow.
#[verifier::external_body]
pub(crate) fn lcm(x: usize, y: usize) -> (m: u128)
    ensures
        is_lcm(m as int, x as int, y as int),
{
    num::integer::lcm(x as u128, y as u128)
}

/// `x / y` rounded up is the least `q` with `q * y >= x`.
pub proof fn lemma_div_ceil(x: int, y: int)
    requires
        0 <= x,
        0 < y,
    ensures
        (x / y + if x % y == 0 { 0int } else { 1int }) * y >= x,
        (x / y + if x % y == 0 { 0int } else { 1int }) * y < x + y,
        0 <= x / y + if x % y == 0 { 0int } else { 1int },
        x > 0 ==> x / y + if x % y == 0 { 0int } else { 1int } > 0,
{
    lemma_fundamental_div_mod(x, y);
    let q = x / y;
    assert(q * y == y * q) by (nonlinear_arith);
    assert((q + 1) * y == y * q + y) by (nonlinear_arith);
    lemma_div_pos_is_pos(x, y);
}

} // verus!
