//! Single-precision (binary32) arithmetic and comparison, carried out on integers.
//!
//! A number is held either as an exact non-negative integer or as its 32-bit pattern. Rounding
//! follows IEEE 754: to 24 significant bits, ties to even.

use crate::scalar::Single;
use vstd::arithmetic::power2::*;
use vstd::prelude::*;

verus! {

/// `n / d` rounded to the nearest integer, ties to even.
pub open spec fn round_even(n: nat, d: nat) -> nat {
    let q = n / d;
    let r = n % d;
    if 2 * r < d || (2 * r == d && q % 2 == 0) {
        q
    } else {
        q + 1
    }
}

/// How many binary digits `n` has; none for zero.
pub open spec fn bit_length(n: nat) -> nat
    decreases n,
{
    if n == 0 {
        0
    } else {
        1 + bit_length(n / 2)
    }
}

/// The integer `n` as a binary32 number: the nearest value with 24 significant bits.
pub open spec fn round_to_single(n: nat) -> nat {
    let b = bit_length(n);
    if b <= 24 {
        n
    } else {
        let unit = pow2((b - 24) as nat);
        round_even(n, unit) * unit
    }
}

/// The binary32 quotient of two binary32 integers, rounded to an integer, halves away from zero.
pub open spec fn single_quotient_rounded(n: nat, d: nat) -> nat {
    let b = bit_length(n / d);
    if b == 0 {
        if round_even(n * pow2(25), d) >= pow2(24) {
            1
        } else {
            0
        }
    } else if b < 24 {
        let s = (24 - b) as nat;
        (round_even(n * pow2(s), d) + pow2((s - 1) as nat)) / pow2(s)
    } else {
        let unit = pow2((b - 24) as nat);
        round_even(n, d * unit) * unit
    }
}

/// What `(i as single) * (last as single) / (denom as single)` rounds to.
pub open spec fn single_ratio_rounded(i: nat, last: nat, denom: nat) -> nat {
    single_quotient_rounded(
        round_to_single(round_to_single(i) * round_to_single(last)),
        round_to_single(denom),
    )
}

pub proof fn lemma_bit_length_bounds(n: nat)
    ensures
        n < pow2(bit_length(n)),
        n > 0 ==> bit_length(n) > 0 && pow2((bit_length(n) - 1) as nat) <= n,
    decreases n,
{
    lemma2_to64();
    if n > 0 {
        lemma_bit_length_bounds(n / 2);
        lemma_pow2_unfold(bit_length(n));
        if n / 2 > 0 {
            lemma_pow2_unfold(bit_length(n / 2));
        }
    }
}

proof fn lemma_bit_length_at_most(n: nat, b: nat)
    requires
        n < pow2(b),
    ensures
        bit_length(n) <= b,
{
    lemma_bit_length_bounds(n);
    if bit_length(n) > b {
        if b < (bit_length(n) - 1) as nat {
            lemma_pow2_strictly_increases(b, (bit_length(n) - 1) as nat);
        }
    }
}

proof fn lemma_bit_length_at_least(n: nat, b: nat)
    requires
        n >= pow2(b),
    ensures
        bit_length(n) > b,
{
    lemma_bit_length_bounds(n);
    if bit_length(n) <= b {
        if bit_length(n) < b {
            lemma_pow2_strictly_increases(bit_length(n), b);
        }
    }
}

proof fn lemma_round_even_bounds(n: nat, d: nat)
    requires
        d > 0,
    ensures
        n / d <= round_even(n, d) <= n / d + 1,
{
}

proof fn lemma_pow2_128()
    ensures
        pow2(24) == 0x1000000,
        pow2(25) == 0x2000000,
        pow2(64) == 0x1_0000_0000_0000_0000,
        pow2(128) == u128::MAX + 1,
{
    lemma2_to64();
    lemma2_to64_rest();
    lemma_pow2_adds(64, 64);
}

/// `n / (d * unit)` is `n / d`, divided by `unit`.
proof fn lemma_scaled_quotient(n: nat, d: nat, b: nat)
    requires
        d > 0,
        b >= 24,
        bit_length(n / d) == b,
    ensures
        pow2(23) <= n / (d * pow2((b - 24) as nat)) < pow2(24),
        d * pow2((b - 24) as nat) > 0,
{
    let k = (b - 24) as nat;
    let unit = pow2(k);
    lemma_pow2_pos(k);
    lemma_bit_length_bounds(n / d);
    vstd::arithmetic::div_mod::lemma_div_denominator(n as int, d as int, unit as int);
    assert((n / d) / unit == n / (d * unit));
    lemma_pow2_adds(24, k);
    lemma_pow2_adds(23, k);
    assert(pow2(23) * unit <= n / d < pow2(24) * unit);
    vstd::arithmetic::div_mod::lemma_div_is_ordered(
        (pow2(23) * unit) as int,
        (n / d) as int,
        unit as int,
    );
    vstd::arithmetic::div_mod::lemma_div_by_multiple(pow2(23) as int, unit as int);
    assert((n / d) / unit < pow2(24)) by (nonlinear_arith)
        requires
            n / d < pow2(24) * unit,
            unit > 0,
    ;
    assert(d * unit > 0) by (nonlinear_arith)
        requires
            d > 0,
            unit > 0,
    ;
}

proof fn lemma_round_to_single_bounds(n: nat)
    ensures
        round_to_single(n) <= pow2(bit_length(n)),
        n > 0 ==> pow2((bit_length(n) - 1) as nat) <= round_to_single(n),
{
    lemma_bit_length_bounds(n);
    let b = bit_length(n);
    if b > 24 {
        let k = (b - 24) as nat;
        let unit = pow2(k);
        assert(n / 1 == n);
        lemma_scaled_quotient(n, 1, b);
        assert(1 * unit == unit);
        lemma_round_even_bounds(n, unit);
        let m = round_even(n, unit);
        lemma_pow2_adds(24, k);
        lemma_pow2_adds(23, k);
        assert(m * unit <= pow2(24) * unit && pow2(23) * unit <= m * unit) by (nonlinear_arith)
            requires
                pow2(23) <= m <= pow2(24),
        ;
    }
}

proof fn lemma_quotient_large(n: nat, d: nat)
    requires
        d > 0,
        n / d >= pow2(64),
    ensures
        single_quotient_rounded(n, d) >= pow2(64),
{
    let q = n / d;
    let b = bit_length(q);
    lemma_bit_length_at_least(q, 64);
    let k = (b - 24) as nat;
    let unit = pow2(k);
    lemma_scaled_quotient(n, d, b);
    lemma_round_even_bounds(n, d * unit);
    let m = round_even(n, d * unit);
    lemma_pow2_adds(23, k);
    assert(pow2(23) * unit <= m * unit) by (nonlinear_arith)
        requires
            pow2(23) <= m,
    ;
    if 64 < b - 1 {
        lemma_pow2_strictly_increases(64, (b - 1) as nat);
    }
}

/// Two to the power `e`.
fn power_of_two(e: u32) -> (r: u128)
    requires
        e < 128,
    ensures
        r == pow2(e as nat),
{
    let mut r: u128 = 1;
    let mut i: u32 = 0;
    proof {
        lemma2_to64();
        lemma_pow2_128();
    }
    while i < e
        invariant
            i <= e < 128,
            r == pow2(i as nat),
            pow2(128) == u128::MAX + 1,
        decreases e - i,
    {
        proof {
            lemma_pow2_unfold((i + 1) as nat);
            if i + 1 < 128 {
                lemma_pow2_strictly_increases((i + 1) as nat, 128);
            }
        }
        r = r * 2;
        i += 1;
    }
    r
}

/// How many binary digits `n` has.
fn bit_length_of(n: u128) -> (b: u32)
    ensures
        b as nat == bit_length(n as nat),
        b <= 128,
{
    let mut m: u128 = n;
    let mut b: u32 = 0;
    proof {
        lemma_pow2_128();
        lemma_bit_length_at_most(n as nat, 128);
    }
    while m > 0
        invariant
            bit_length(n as nat) == b + bit_length(m as nat),
            bit_length(n as nat) <= 128,
        decreases m,
    {
        m = m / 2;
        b += 1;
    }
    b
}

/// `n / d` to the nearest integer, ties to even.
fn round_even_div(n: u128, d: u128) -> (r: u128)
    requires
        d > 0,
    ensures
        r as nat == round_even(n as nat, d as nat),
{
    let q: u128 = n / d;
    let rest: u128 = n % d;
    let gap: u128 = d - rest;
    if rest < gap || (rest == gap && q % 2 == 0) {
        q
    } else {
        assert(q <= n / 2) by (nonlinear_arith)
            requires
                d >= 2,
                q == n / d,
                n >= 0,
        ;
        q + 1
    }
}

/// `n` as a binary32 integer; `None` where that does not fit in 128 bits.
fn round_single(n: u128) -> (r: Option<u128>)
    ensures
        match r {
            Some(v) => v as nat == round_to_single(n as nat),
            None => round_to_single(n as nat) >= pow2(128),
        },
{
    let b: u32 = bit_length_of(n);
    if b <= 24 {
        return Some(n);
    }
    let unit: u128 = power_of_two(b - 24);
    proof {
        lemma_pow2_pos((b - 24) as nat);
        lemma_pow2_128();
        lemma_round_to_single_bounds(n as nat);
        if b < 128 {
            lemma_pow2_strictly_increases(b as nat, 128);
        }
    }
    let m: u128 = round_even_div(n, unit);
    m.checked_mul(unit)
}

/// The rounded binary32 quotient; `None` where it is at least two to the power 64.
fn quotient_rounded(n: u128, d: u128) -> (r: Option<u128>)
    requires
        0 < d <= 0x10_0000_0000_0000_0000_0000_0000,
    ensures
        match r {
            Some(v) => v as nat == single_quotient_rounded(n as nat, d as nat),
            None => single_quotient_rounded(n as nat, d as nat) >= pow2(64),
        },
{
    let q: u128 = n / d;
    proof {
        lemma_pow2_128();
        lemma_bit_length_bounds(q as nat);
    }
    if q >= 0x1_0000_0000_0000_0000 {
        proof {
            lemma_quotient_large(n as nat, d as nat);
        }
        return None;
    }
    let b: u32 = bit_length_of(q);
    proof {
        lemma_bit_length_at_most(q as nat, 64);
        vstd::arithmetic::div_mod::lemma_fundamental_div_mod(n as int, d as int);
    }
    if b == 0 {
        assert(n < d) by (nonlinear_arith)
            requires
                n == d * q + n % d,
                q == 0,
                n % d < d,
        ;
        if round_even_div(n * 0x2000000, d) >= 0x1000000 {
            Some(1)
        } else {
            Some(0)
        }
    } else if b < 24 {
        let s: u32 = 24 - b;
        let scale: u128 = power_of_two(s);
        proof {
            lemma_pow2_adds(b as nat, s as nat);
            lemma_pow2_pos(s as nat);
            lemma_pow2_strictly_increases(s as nat, 24);
            lemma_pow2_strictly_increases((s - 1) as nat, 24);
            assert(n < d * pow2(b as nat)) by (nonlinear_arith)
                requires
                    n == d * q + n % d,
                    n % d < d,
                    q + 1 <= pow2(b as nat),
            ;
            assert(n * scale < d * 0x1000000) by (nonlinear_arith)
                requires
                    n < d * pow2(b as nat),
                    scale == pow2(s as nat),
                    pow2(b as nat) * scale == 0x1000000,
                    scale > 0,
            ;
            lemma_round_even_bounds((n * scale) as nat, d as nat);
            assert((n * scale) / (d as int) <= n * scale) by (nonlinear_arith)
                requires
                    d > 0,
                    n * scale >= 0,
            ;
        }
        let m: u128 = round_even_div(n * scale, d);
        let half: u128 = power_of_two(s - 1);
        Some((m + half) / scale)
    } else {
        let unit: u128 = power_of_two(b - 24);
        proof {
            lemma_scaled_quotient(n as nat, d as nat, b as nat);
            lemma_pow2_pos((b - 24) as nat);
            if b - 24 < 40 {
                lemma_pow2_strictly_increases((b - 24) as nat, 40);
            }
            lemma2_to64();
            lemma2_to64_rest();
            let whole = d as nat * unit as nat;
            assert(whole <= n) by (nonlinear_arith)
                requires
                    n as nat / whole >= 1,
                    whole > 0,
            ;
            lemma_round_even_bounds(n as nat, (d * unit) as nat);
        }
        let m: u128 = round_even_div(n, d * unit);
        assert(m * unit <= 0x1000000 * 0x100_0000_0000) by (nonlinear_arith)
            requires
                m <= 0x1000000,
                unit <= 0x100_0000_0000,
        ;
        Some(m * unit)
    }
}

/// `i * last / denom` in binary32 arithmetic, rounded to an integer and limited to `cap`.
pub fn single_ratio(i: usize, last: usize, denom: usize, cap: usize) -> (r: usize)
    requires
        denom > 0,
    ensures
        r as nat == vstd::math::min(
            single_ratio_rounded(i as nat, last as nat, denom as nat) as int,
            cap as int,
        ),
{
    proof {
        lemma_pow2_128();
        lemma_usize_single(i);
        lemma_usize_single(last);
        lemma_usize_single(denom);
        lemma_bit_length_bounds(denom as nat);
        lemma_round_to_single_bounds(denom as nat);
        lemma_pow2_pos((bit_length(denom as nat) - 1) as nat);
    }
    let a = match round_single(i as u128) {
        Some(v) => v,
        None => 0,
    };
    let b = match round_single(last as u128) {
        Some(v) => v,
        None => 0,
    };
    let d = match round_single(denom as u128) {
        Some(v) => v,
        None => 1,
    };
    let ghost exact = round_to_single(a as nat * b as nat);
    let product = match a.checked_mul(b) {
        Some(p) => round_single(p),
        None => {
            proof {
                lemma_bit_length_at_least(a as nat * b as nat, 128);
                lemma_round_to_single_bounds(a as nat * b as nat);
                let bl = bit_length(a as nat * b as nat);
                if 128 < bl - 1 {
                    lemma_pow2_strictly_increases(128, (bl - 1) as nat);
                }
            }
            None
        },
    };
    let rounded = match product {
        Some(n) => quotient_rounded(n, d),
        None => {
            proof {
                assert(exact / (d as nat) >= pow2(64)) by (nonlinear_arith)
                    requires
                        exact >= pow2(128),
                        pow2(128) == pow2(64) * pow2(64),
                        0 < d <= pow2(64),
                ;
                lemma_quotient_large(exact, d as nat);
            }
            None
        },
    };
    match rounded {
        Some(v) => if v < cap as u128 {
            v as usize
        } else {
            cap
        },
        None => cap,
    }
}

proof fn lemma_usize_single(n: usize)
    ensures
        round_to_single(n as nat) <= pow2(64),
{
    lemma_pow2_128();
    lemma_bit_length_at_most(n as nat, 64);
    lemma_round_to_single_bounds(n as nat);
    if bit_length(n as nat) < 64 {
        lemma_pow2_strictly_increases(bit_length(n as nat), 64);
    }
}

/// The binary32 quotient of two binary32 integers, in units of two to the power -56. It is exact for
/// quotients of 32-bit numbers, which are at least two to the power -32.
pub open spec fn fixed_quotient(n: nat, d: nat) -> nat {
    if n == 0 {
        0
    } else {
        let b = bit_length(n * pow2(56) / d);
        let unit = pow2((b - 24) as nat);
        round_even(n * pow2(56), d * unit) * unit
    }
}

/// The bit pattern of the binary32 quotient of two binary32 integers. The significand follows the
/// biased exponent, and a carry out of it raises the exponent.
pub open spec fn quotient_bits(n: nat, d: nat) -> nat {
    if n == 0 {
        0
    } else {
        let b = bit_length(n * pow2(56) / d);
        (b + 69) * 0x80_0000 + round_even(n * pow2(56), d * pow2((b - 24) as nat))
    }
}

/// What `(extent as single) * ((target as single) / (other as single))` rounds to, as a 32-bit number.
pub open spec fn scaled_extent_of(extent: nat, target: nat, other: nat) -> nat {
    let factor = fixed_quotient(round_to_single(target), round_to_single(other));
    let product = round_to_single(round_to_single(extent) * factor);
    vstd::math::min(((product + pow2(55)) / pow2(56)) as int, u32::MAX as int) as nat
}

/// What `(n as single) / factor` rounds to, for a factor in units of two to the power -56.
pub open spec fn unscaled_extent_of(n: nat, factor: nat) -> nat {
    single_quotient_rounded(round_to_single(n) * pow2(56), factor)
}

proof fn lemma_pow2_56()
    ensures
        pow2(32) == 0x1_0000_0000,
        pow2(55) == 0x80_0000_0000_0000,
        pow2(56) == 0x100_0000_0000_0000,
        pow2(88) == 0x100_0000_0000_0000_0000_0000,
        pow2(89) == 0x200_0000_0000_0000_0000_0000,
{
    lemma2_to64();
    lemma2_to64_rest();
    lemma_pow2_adds(56, 32);
    lemma_pow2_unfold(89);
}

/// A 32-bit number as a binary32 integer.
fn single_of(n: u32) -> (r: u128)
    ensures
        r as nat == round_to_single(n as nat),
        r <= 0x1_0000_0000,
        n > 0 ==> r > 0,
{
    proof {
        lemma_pow2_56();
        lemma_pow2_128();
        lemma_bit_length_at_most(n as nat, 32);
        lemma_bit_length_bounds(n as nat);
        lemma_round_to_single_bounds(n as nat);
        if bit_length(n as nat) < 32 {
            lemma_pow2_strictly_increases(bit_length(n as nat), 32);
        }
        if n > 0 {
            lemma_pow2_pos((bit_length(n as nat) - 1) as nat);
        }
        lemma_pow2_strictly_increases(32, 128);
    }
    match round_single(n as u128) {
        Some(v) => v,
        None => 0,
    }
}

/// A positive number stays positive when it is rounded.
pub proof fn lemma_single_is_positive(n: nat)
    requires
        n > 0,
    ensures
        round_to_single(n) > 0,
{
    lemma_bit_length_bounds(n);
    lemma_round_to_single_bounds(n);
    lemma_pow2_pos((bit_length(n) - 1) as nat);
}

/// The quotient of two binary32 integers: the binary digits of its scaled value, and its significand.
fn quotient_parts(n: u128, d: u128) -> (r: (u32, u128))
    requires
        1 <= n <= 0x1_0000_0000,
        1 <= d <= 0x1_0000_0000,
    ensures
        r.0 as nat == bit_length(n as nat * pow2(56) / d as nat),
        25 <= r.0 <= 89,
        r.1 as nat == round_even(n as nat * pow2(56), d as nat * pow2((r.0 - 24) as nat)),
        0x80_0000 <= r.1 <= 0x100_0000,
{
    let big: u128 = n * 0x100_0000_0000_0000;
    let q: u128 = big / d;
    proof {
        lemma_pow2_56();
        lemma_pow2_128();
        lemma2_to64();
        assert(q >= 0x100_0000) by (nonlinear_arith)
            requires
                q == big / d,
                big >= 0x100_0000_0000_0000,
                1 <= d <= 0x1_0000_0000,
        ;
        assert(q <= big) by (nonlinear_arith)
            requires
                q == big / d,
                d >= 1,
                big >= 0,
        ;
        lemma_bit_length_at_least(q as nat, 24);
        lemma_bit_length_at_most(q as nat, 89);
    }
    let b: u32 = bit_length_of(q);
    let unit: u128 = power_of_two(b - 24);
    proof {
        lemma_scaled_quotient(big as nat, d as nat, b as nat);
        let whole = d as nat * unit as nat;
        assert(whole <= big) by (nonlinear_arith)
            requires
                big as nat / whole >= 1,
                whole > 0,
        ;
        lemma_round_even_bounds(big as nat, whole);
    }
    (b, round_even_div(big, d * unit))
}

/// The quotient of two binary32 integers in units of two to the power -56.
fn quotient_fixed(n: u128, d: u128) -> (r: u128)
    requires
        n <= 0x1_0000_0000,
        1 <= d <= 0x1_0000_0000,
    ensures
        r as nat == fixed_quotient(n as nat, d as nat),
        r <= 0x200_0000_0000_0000_0000_0000,
        n > 0 ==> r > 0,
{
    if n == 0 {
        return 0;
    }
    let (b, m) = quotient_parts(n, d);
    let unit: u128 = power_of_two(b - 24);
    proof {
        lemma_pow2_56();
        lemma_pow2_128();
        lemma_pow2_pos((b - 24) as nat);
        lemma_pow2_adds(24, (b - 24) as nat);
        if b < 89 {
            lemma_pow2_strictly_increases(b as nat, 89);
        }
        assert(0 < m * unit <= pow2(24) * unit) by (nonlinear_arith)
            requires
                0 < m <= pow2(24),
                unit > 0,
        ;
    }
    m * unit
}

/// `n / d` in binary32 arithmetic.
pub fn single_quotient(n: u32, d: u32) -> (r: Single)
    requires
        d > 0,
    ensures
        r.bits as nat == quotient_bits(round_to_single(n as nat), round_to_single(d as nat)),
{
    let num: u128 = single_of(n);
    let den: u128 = single_of(d);
    if num == 0 {
        return Single { bits: 0 };
    }
    let (b, m) = quotient_parts(num, den);
    Single { bits: (b + 69) * 0x80_0000 + m as u32 }
}

/// `extent * (target / other)` in binary32 arithmetic, rounded to an integer.
pub fn scaled_extent(extent: u32, target: u32, other: u32) -> (r: u32)
    requires
        other > 0,
    ensures
        r as nat == scaled_extent_of(extent as nat, target as nat, other as nat),
{
    let factor: u128 = quotient_fixed(single_of(target), single_of(other));
    let whole: u128 = single_of(extent);
    proof {
        lemma_pow2_56();
        lemma_pow2_128();
        lemma_pow2_adds(89, 32);
        lemma_pow2_unfold(122);
        assert(whole * factor <= pow2(121)) by (nonlinear_arith)
            requires
                0 <= whole <= 0x1_0000_0000,
                0 <= factor <= 0x200_0000_0000_0000_0000_0000,
                pow2(121) == 0x200_0000_0000_0000_0000_0000 * 0x1_0000_0000,
        ;
        lemma_pow2_strictly_increases(122, 128);
        let product = whole as nat * factor as nat;
        lemma_pow2_pos(121);
        lemma_bit_length_at_most(product, 122);
        lemma_round_to_single_bounds(product);
        if bit_length(product) < 122 {
            lemma_pow2_strictly_increases(bit_length(product), 122);
        }
        lemma_pow2_adds(122, 6);
    }
    let product = match round_single(whole * factor) {
        Some(v) => v,
        None => 0,
    };
    let rounded: u128 = (product + 0x80_0000_0000_0000) / 0x100_0000_0000_0000;
    if rounded < 0xffff_ffff {
        rounded as u32
    } else {
        0xffff_ffff
    }
}

/// `target / other` in binary32 arithmetic, in units of two to the power -56.
pub fn scale_factor(target: u32, other: u32) -> (r: u128)
    requires
        other > 0,
    ensures
        r as nat == fixed_quotient(round_to_single(target as nat), round_to_single(other as nat)),
        r <= 0x200_0000_0000_0000_0000_0000,
        target > 0 ==> r > 0,
{
    quotient_fixed(single_of(target), single_of(other))
}

/// `n / factor` in binary32 arithmetic, rounded to an integer and limited to `cap`.
pub fn unscaled_extent(n: u32, factor: u128, cap: u32) -> (r: u32)
    requires
        0 < factor <= 0x200_0000_0000_0000_0000_0000,
    ensures
        r as nat == vstd::math::min(unscaled_extent_of(n as nat, factor as nat) as int, cap as int),
{
    proof {
        lemma_pow2_56();
        lemma_pow2_128();
    }
    let num: u128 = single_of(n) * 0x100_0000_0000_0000;
    match quotient_rounded(num, factor) {
        Some(v) => if v < cap as u128 {
            v as u32
        } else {
            cap
        },
        None => cap,
    }
}

/// A 32-bit number in binary32 arithmetic, as a 32-bit number again.
pub fn single_rounded(n: u32) -> (r: u32)
    ensures
        r as nat == vstd::math::min(round_to_single(n as nat) as int, u32::MAX as int),
{
    let v: u128 = single_of(n);
    if v < 0xffff_ffff {
        v as u32
    } else {
        0xffff_ffff
    }
}

/// One less than a 32-bit number, in binary32 arithmetic.
pub fn single_predecessor(n: u32) -> (r: u32)
    requires
        n > 0,
    ensures
        r as nat == vstd::math::min(
            round_to_single((round_to_single(n as nat) - 1) as nat) as int,
            u32::MAX as int,
        ),
{
    let v: u128 = single_of(n);
    single_rounded((v - 1) as u32)
}

/// A number divided by itself is one, also after rounding.
pub proof fn law_equal_numbers_divide_to_one(n: nat)
    requires
        1 <= n <= u32::MAX,
    ensures
        quotient_bits(round_to_single(n), round_to_single(n)) == Single::one().bits,
{
    lemma_pow2_56();
    lemma2_to64();
    lemma2_to64_rest();
    lemma_bit_length_bounds(n);
    lemma_round_to_single_bounds(n);
    lemma_pow2_pos((bit_length(n) - 1) as nat);
    let m = round_to_single(n);
    let big = m * pow2(56);
    vstd::arithmetic::div_mod::lemma_div_multiples_vanish(pow2(56) as int, m as int);
    assert(big / m == pow2(56)) by (nonlinear_arith)
        requires
            big == m * pow2(56),
            m > 0,
    ;
    lemma_bit_length_at_least(pow2(56), 56);
    lemma_pow2_unfold(57);
    lemma_bit_length_at_most(pow2(56), 57);
    assert(pow2(33) == 0x2_0000_0000);
    let whole = m * pow2(33);
    assert(big == whole * 0x80_0000) by (nonlinear_arith)
        requires
            big == m * 0x100_0000_0000_0000,
            whole == m * 0x2_0000_0000,
    ;
    vstd::arithmetic::div_mod::lemma_fundamental_div_mod_converse(
        big as int,
        whole as int,
        0x80_0000,
        0,
    );
    assert(round_even(big, whole) == 0x80_0000);
}

/// Nothing scales to nothing.
pub proof fn lemma_zero_ratio(last: nat, denom: nat)
    requires
        denom > 0,
    ensures
        single_ratio_rounded(0, last, denom) == 0,
{
    let d = round_to_single(denom);
    lemma_bit_length_bounds(denom);
    lemma_round_to_single_bounds(denom);
    lemma_pow2_pos((bit_length(denom) - 1) as nat);
    lemma_pow2_pos(24);
    assert(round_to_single(0) == 0);
    assert(0 * round_to_single(last) == 0);
    assert(0nat / d == 0 && 0nat % d == 0) by (nonlinear_arith)
        requires
            d > 0,
    ;
    assert(0 * pow2(25) == 0);
}

/// Rounding to the 24 significant bits of binary32 takes off at most that share of a number.
proof fn lemma_single_loses_little(n: nat)
    ensures
        0x100_0000 * round_to_single(n) >= 0xff_ffff * n,
{
    lemma2_to64();
    lemma_bit_length_bounds(n);
    let b = bit_length(n);
    if b > 24 {
        let k = (b - 24) as nat;
        let unit = pow2(k);
        lemma_pow2_pos(k);
        lemma_pow2_adds(23, k);
        let m = round_even(n, unit);
        vstd::arithmetic::div_mod::lemma_fundamental_div_mod(n as int, unit as int);
        let q = n / unit;
        let r = n % unit;
        assert(2 * (m * unit) >= 2 * n - unit) by {
            if m == q {
                assert(2 * r <= unit);
                assert(2 * (m * unit) == 2 * n - 2 * r) by (nonlinear_arith)
                    requires
                        m == q,
                        n == unit * q + r,
                ;
            } else {
                assert(2 * (m * unit) == 2 * n - 2 * r + 2 * unit) by (nonlinear_arith)
                    requires
                        m == q + 1,
                        n == unit * q + r,
                ;
            }
        }
        assert(0x80_0000 * unit <= n);
    }
}

/// A whole scaled by itself over itself is never cut short: `denom * last / denom` comes out as
/// `last` or more, up to two to the power 23.
pub proof fn law_full_ratio_reaches_the_end(last: nat, denom: nat)
    requires
        1 <= denom <= 0x80_0000,
        last <= 0x80_0000,
    ensures
        single_ratio_rounded(denom, last, denom) >= last,
{
    lemma2_to64();
    lemma_bit_length_at_most(last, 24);
    lemma_bit_length_at_most(denom, 24);
    let n = round_to_single(denom * last);
    lemma_single_loses_little(denom * last);
    // The quotient falls short of `last` by at most one half.
    assert(2 * n >= denom * (2 * last - 1)) by (nonlinear_arith)
        requires
            0x100_0000 * n >= 0xff_ffff * (denom * last),
            0 <= last <= 0x80_0000,
            denom >= 1,
    ;
    let q = n / denom;
    let b = bit_length(q);
    lemma_bit_length_bounds(q);
    vstd::arithmetic::div_mod::lemma_fundamental_div_mod(n as int, denom as int);
    if last == 0 {
    } else if b == 0 {
        assert(q == 0);
        let r = round_even(n * pow2(25), denom);
        lemma_round_even_bounds(n * pow2(25), denom);
        assert(last == 1 && 2 * n >= denom) by (nonlinear_arith)
            requires
                n < denom,
                2 * n >= denom * (2 * last - 1),
                last >= 1,
        ;
        assert((n * 0x200_0000) / denom >= 0x100_0000) by (nonlinear_arith)
            requires
                2 * n >= denom,
                denom >= 1,
        ;
    } else if b < 24 {
        let s = (24 - b) as nat;
        let scale = pow2(s);
        let half = pow2((s - 1) as nat);
        lemma_pow2_unfold(s);
        lemma_pow2_pos((s - 1) as nat);
        let m = round_even(n * scale, denom);
        lemma_round_even_bounds(n * scale, denom);
        assert((n * scale) / denom >= half * (2 * last - 1)) by {
            assert(n * scale >= denom * (half * (2 * last - 1))) by (nonlinear_arith)
                requires
                    2 * n >= denom * (2 * last - 1),
                    scale == 2 * half,
                    half > 0,
            ;
            let floor = half * (2 * last - 1);
            assert(floor >= 0) by (nonlinear_arith)
                requires
                    floor == half * (2 * last - 1),
                    half > 0,
                    last >= 1,
            ;
            vstd::arithmetic::div_mod::lemma_div_is_ordered(
                floor * denom,
                (n * scale) as int,
                denom as int,
            );
            vstd::arithmetic::div_mod::lemma_div_by_multiple(floor, denom as int);
        }
        assert((m + half) / scale >= last) by (nonlinear_arith)
            requires
                m >= half * (2 * last - 1),
                scale == 2 * half,
                half > 0,
        ;
    } else {
        let unit = pow2((b - 24) as nat);
        lemma_scaled_quotient(n, denom, b);
        lemma_round_even_bounds(n, denom * unit);
        lemma_pow2_pos((b - 24) as nat);
        let m = round_even(n, denom * unit);
        assert(m * unit >= 0x80_0000) by (nonlinear_arith)
            requires
                m >= 0x80_0000,
                unit >= 1,
        ;
    }
}

/// Where the exact product stays below two to the power 23, single-precision scaling rounds the
/// exact ratio to the nearest integer, halves upward.
pub proof fn law_small_ratio_rounds_half_up(i: nat, last: nat, denom: nat)
    requires
        0 < denom <= last < 0x80_0000,
        i * last < 0x80_0000,
    ensures
        single_ratio_rounded(i, last, denom) == (2 * i * last + denom) / (2 * denom),
{
    let n = i * last;
    let d = denom;
    lemma2_to64();
    lemma2_to64_rest();
    assert(i <= n) by (nonlinear_arith)
        requires
            n == i * last,
            last >= 1,
    ;
    lemma_bit_length_at_most(i, 23);
    lemma_bit_length_at_most(last, 23);
    lemma_bit_length_at_most(denom, 23);
    lemma_bit_length_at_most(n, 23);
    assert(2 * i * last == 2 * n) by (nonlinear_arith)
        requires
            n == i * last,
    ;
    let t = (2 * n + d) / (2 * d);
    if i == 0 {
        assert(n == 0) by (nonlinear_arith)
            requires
                n == i * last,
                i == 0,
        ;
        assert(d / (2 * d) == 0 && 0nat / d == 0 && 0nat % d == 0) by (nonlinear_arith)
            requires
                d > 0,
        ;
        assert(0 * pow2(25) == 0);
    } else {
        assert(d <= n) by (nonlinear_arith)
            requires
                n == i * last,
                i >= 1,
                d <= last,
        ;
        let q = n / d;
        assert(1 <= q <= n) by (nonlinear_arith)
            requires
                0 < d <= n,
                q == n / d,
        ;
        lemma_bit_length_bounds(q);
        lemma_bit_length_at_most(q, 23);
        let b = bit_length(q);
        let s = (24 - b) as nat;
        let scale = pow2(s);
        let half = pow2((s - 1) as nat);
        lemma_pow2_unfold(s);
        lemma_pow2_adds((b - 1) as nat, s);
        lemma_pow2_pos((s - 1) as nat);
        assert(d < scale) by (nonlinear_arith)
            requires
                n < 0x80_0000,
                q == n / d,
                d > 0,
                pow2((b - 1) as nat) <= q,
                pow2((b - 1) as nat) * scale == 0x80_0000,
        ;
        let big = n * scale;
        let m = round_even(big, d);
        vstd::arithmetic::div_mod::lemma_fundamental_div_mod(big as int, d as int);
        let f = big / d;
        let r = big % d;
        let slack = m - f;
        assert(2 * m * d == 2 * big - 2 * r + 2 * slack * d) by (nonlinear_arith)
            requires
                big == d * f + r,
                m == f + slack,
        ;
        assert(slack == 0 || slack == 1);
        if slack == 0 {
            assert(2 * slack * d == 0) by (nonlinear_arith)
                requires
                    slack == 0,
            ;
            assert(2 * r <= d);
        } else {
            assert(2 * slack * d == 2 * d) by (nonlinear_arith)
                requires
                    slack == 1,
            ;
            assert(d <= 2 * r < 2 * d);
        }
        assert(2 * m * d <= 2 * big + d && 2 * m * d >= 2 * big - d);
        assert(d * (2 * t - 1) <= 2 * n && 2 * n + 1 <= d * (2 * t + 1)) by {
            vstd::arithmetic::div_mod::lemma_fundamental_div_mod((2 * n + d) as int, (2 * d) as int);
            assert(d * (2 * t - 1) <= 2 * n && 2 * n + 1 <= d * (2 * t + 1)) by (nonlinear_arith)
                requires
                    2 * n + d == 2 * d * t + (2 * n + d) % (2 * d),
                    0 <= (2 * n + d) % (2 * d) < 2 * d,
            ;
        }
        // The rounded product cannot cross the midpoints on either side of `t`.
        assert(m >= half * (2 * t - 1)) by (nonlinear_arith)
            requires
                2 * m * d >= 2 * big - d,
                big == n * scale,
                scale == 2 * half,
                d * (2 * t - 1) <= 2 * n,
                d > 0,
        ;
        assert(m < half * (2 * t + 1)) by (nonlinear_arith)
            requires
                2 * m * d <= 2 * big + d,
                big == n * scale,
                scale == 2 * half,
                2 * n + 1 <= d * (2 * t + 1),
                0 < d < scale,
        ;
        assert((m + half) / scale == t) by (nonlinear_arith)
            requires
                m >= half * (2 * t - 1),
                m < half * (2 * t + 1),
                scale == 2 * half,
                half > 0,
        ;
    }
}

} // verus!
