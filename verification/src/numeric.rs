//! Bounded integer arithmetic shared by the planning rules.

use vstd::arithmetic::div_mod::{lemma_fundamental_div_mod, lemma_fundamental_div_mod_converse};
use vstd::prelude::*;

verus! {

/// `n`, or the largest `usize` where `n` exceeds it.
pub open spec fn saturated(n: int) -> int {
    if n > usize::MAX {
        usize::MAX as int
    } else {
        n
    }
}

/// `a * b`, saturating.
pub fn sat_mul(a: usize, b: usize) -> (r: usize)
    ensures
        r == saturated(a * b),
{
    match a.checked_mul(b) {
        Some(v) => v,
        None => usize::MAX,
    }
}

/// `a + b`, saturating.
pub fn sat_add(a: usize, b: usize) -> (r: usize)
    ensures
        r == saturated(a + b),
{
    match a.checked_add(b) {
        Some(v) => v,
        None => usize::MAX,
    }
}

/// `a - b`, or zero where `b` is larger.
pub open spec fn floored_difference(a: int, b: int) -> int {
    if a < b {
        0
    } else {
        a - b
    }
}

/// `a - b`, or zero where `b` is larger.
pub fn sat_sub(a: usize, b: usize) -> (r: usize)
    ensures
        r == floored_difference(a as int, b as int),
{
    if a < b {
        0
    } else {
        a - b
    }
}

/// The smaller of two.
pub fn min_of(a: usize, b: usize) -> (r: usize)
    ensures
        r == vstd::math::min(a as int, b as int),
{
    if a < b {
        a
    } else {
        b
    }
}

/// The larger of two.
pub fn max_of(a: usize, b: usize) -> (r: usize)
    ensures
        r == vstd::math::max(a as int, b as int),
{
    if a < b {
        b
    } else {
        a
    }
}

/// `n / d`, rounded up.
pub open spec fn ceil_div_of(n: int, d: int) -> int {
    (n + d - 1) / d
}

/// `n / d`, rounded up.
pub fn ceil_div(n: usize, d: usize) -> (r: usize)
    requires
        d > 0,
    ensures
        r == ceil_div_of(n as int, d as int),
        n > 0 ==> r > 0,
{
    let q: usize = n / d;
    let rest: usize = n % d;
    proof {
        lemma_fundamental_div_mod(n as int, d as int);
    }
    if rest == 0 {
        proof {
            lemma_fundamental_div_mod_converse(n + d - 1, d as int, q as int, d - 1);
            if n > 0 && q == 0 {
                assert(d * q == 0) by (nonlinear_arith)
                    requires
                        q == 0,
                ;
            }
        }
        q
    } else {
        proof {
            assert(d * (q + 1) == d * q + d) by (nonlinear_arith);
            lemma_fundamental_div_mod_converse(n + d - 1, d as int, q + 1, rest - 1);
            assert(q < n) by (nonlinear_arith)
                requires
                    n == d * q + rest,
                    d >= 1,
                    rest >= 1,
                    q >= 0,
            ;
        }
        q + 1
    }
}

/// Enough pieces of size `d` cover `n`, and one fewer does not.
pub proof fn law_ceil_div_is_tight(n: int, d: int)
    requires
        n >= 0,
        d > 0,
    ensures
        ceil_div_of(n, d) * d >= n,
        n > 0 ==> (ceil_div_of(n, d) - 1) * d < n,
{
    let c = ceil_div_of(n, d);
    lemma_fundamental_div_mod(n + d - 1, d);
    assert(c * d >= n && (c - 1) * d < n) by (nonlinear_arith)
        requires
            n + d - 1 == d * c + (n + d - 1) % d,
            0 <= (n + d - 1) % d < d,
    ;
}

/// Whether `n` cells form a square.
pub open spec fn is_square(n: nat) -> bool {
    exists|s: nat| #[trigger] (s * s) == n
}

/// The side of a square of `n` cells; `None` where `n` is no square.
pub fn square_side(n: usize) -> (r: Option<usize>)
    ensures
        match r {
            Some(side) => side * side == n,
            None => forall|s: nat| #[trigger] (s * s) != n as nat,
        },
{
    let target: u128 = n as u128;
    let mut low: u128 = 0;
    let mut high: u128 = 0x1_0000_0000_0000_0000;
    assert(low * low <= target) by (nonlinear_arith)
        requires
            low == 0,
            target >= 0,
    ;
    while high - low > 1
        invariant
            low < high <= 0x1_0000_0000_0000_0000,
            low <= usize::MAX,
            target == n,
            low * low <= target,
            target < high * high,
        decreases high - low,
    {
        let mid: u128 = low + (high - low) / 2;
        assert(mid * mid <= 0xffff_ffff_ffff_ffff * 0xffff_ffff_ffff_ffff) by (nonlinear_arith)
            requires
                0 <= mid <= 0xffff_ffff_ffff_ffff,
        ;
        if mid * mid <= target {
            assert(mid <= target) by (nonlinear_arith)
                requires
                    mid * mid <= target,
                    mid >= 1,
            ;
            low = mid;
        } else {
            high = mid;
        }
    }
    assert(high == low + 1);
    assert(low * low <= target);
    let square: u128 = low * low;
    if square == target {
        Some(low as usize)
    } else {
        assert forall|s: nat| #[trigger] (s * s) != n as nat by {
            if s <= low {
                assert(s * s <= low * low) by (nonlinear_arith)
                    requires
                        s <= low,
                ;
            } else {
                assert(s * s >= high * high) by (nonlinear_arith)
                    requires
                        s >= high,
                ;
            }
        }
        None
    }
}

/// A square has one side.
pub proof fn law_square_side_is_unique(a: nat, b: nat)
    requires
        a * a == b * b,
    ensures
        a == b,
{
    if a < b {
        assert(a * a < b * b) by (nonlinear_arith)
            requires
                a < b,
        ;
    }
    if b < a {
        assert(b * b < a * a) by (nonlinear_arith)
            requires
                b < a,
        ;
    }
}

/// A number that saturates is the largest one that exceeds neither it nor what can be counted.
pub proof fn law_saturated_is_the_largest_that_fits(n: int, m: int)
    ensures
        m <= saturated(n) <==> m <= n && m <= usize::MAX,
{
}

/// A floored difference is the least that is not negative and brings the smaller number back to the
/// larger.
pub proof fn law_floored_difference_makes_up(a: int, b: int, d: int)
    ensures
        floored_difference(a, b) <= d <==> d >= 0 && b + d >= a,
{
}

} // verus!
