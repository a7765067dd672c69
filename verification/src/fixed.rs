//! Fixed-point arithmetic core.
//!
//! Every real quantity of the library is carried as an `i64` holding the
//! real value multiplied by [`ONE`].  The helpers here give truncated
//! (round-toward-zero) division, Euclidean remainder, fixed-point
//! multiplication and integer square roots, each pinned to a spec-level
//! counterpart.

use vstd::prelude::*;

verus! {

use vstd::arithmetic::div_mod::lemma_fundamental_div_mod;
use vstd::arithmetic::div_mod::lemma_fundamental_div_mod_converse_mod;
use vstd::arithmetic::div_mod::lemma_div_is_ordered;
use vstd::arithmetic::mul::lemma_mul_inequality;

/// Number of fixed-point units per real unit: a value `v` is stored as
/// the integer `v * ONE`, rounded.
pub const ONE: i64 = 65536;

/// Half of [`ONE`]; the stored form of one half.
pub const HALF: i64 = 32768;

/// A quarter turn (pi/2) in fixed-point units.  [`PI`] and [`TAU`] are
/// exact multiples of it so that the quarter-wave symmetries of the sine
/// approximation hold exactly at 0, pi/2 and pi.
pub const HALF_PI: i64 = 102944;

/// Half a turn (pi) in fixed-point units.
pub const PI: i64 = 2 * HALF_PI;

/// A full turn (2 pi) in fixed-point units.
pub const TAU: i64 = 4 * HALF_PI;

/// Truncated (round-toward-zero) division, matching what the executable
/// [`div_trunc`] computes.  The divisor is positive.
pub open spec fn sdiv(a: int, d: int) -> int {
    if a >= 0 {
        a / d
    } else {
        -((-a) / d)
    }
}

/// Fixed-point product: the stored form of the product of the two real
/// values that `a` and `b` store.
pub open spec fn fmul(a: int, b: int) -> int {
    sdiv(a * b, ONE as int)
}

/// Truncated division by a positive divisor.
pub fn div_trunc(a: i64, d: i64) -> (r: i64)
    requires
        d > 0,
        a > i64::MIN,
    ensures
        r == sdiv(a as int, d as int),
        a >= 0 ==> 0 <= r <= a,
        a < 0 ==> a <= r <= 0,
{
    if a >= 0 {
        let q = (a as u64) / (d as u64);
        proof {
            lemma_div_is_ordered(q as int, a as int, 1);
            assert(q <= a);
        }
        q as i64
    } else {
        let m = (-a) as u64;
        let q = m / (d as u64);
        proof {
            lemma_div_is_ordered(q as int, m as int, 1);
            assert(q <= m);
        }
        -(q as i64)
    }
}

/// Euclidean remainder: the result is always in `[0, m)`.
pub fn mod_euclid(a: i64, m: i64) -> (r: i64)
    requires
        m > 0,
        a > i64::MIN,
    ensures
        r == a as int % m as int,
        0 <= r < m,
{
    let q = div_trunc(a, m);
    proof {
        let ai = a as int;
        let mi = m as int;
        let qi = q as int;
        lemma_fundamental_div_mod(ai, mi);
        if a >= 0 {
            assert(qi == ai / mi);
            assert(qi * mi == mi * (ai / mi)) by (nonlinear_arith)
                requires
                    qi == ai / mi,
            ;
            assert(0 <= ai - qi * mi < mi);
        } else {
            lemma_fundamental_div_mod(-ai, mi);
            assert(qi == -((-ai) / mi));
            assert(-ai == mi * ((-ai) / mi) + (-ai) % mi);
            assert(qi * mi == -(mi * ((-ai) / mi))) by (nonlinear_arith)
                requires
                    qi == -((-ai) / mi),
            ;
            assert(ai - qi * mi == -((-ai) % mi));
            assert(-mi < ai - qi * mi <= 0);
        }
    }
    let r0 = a - q * m;
    if r0 < 0 {
        proof {
            assert(a as int == (q as int - 1) * (m as int) + (r0 + m)) by (nonlinear_arith)
                requires
                    r0 == a - q * m,
            ;
            lemma_fundamental_div_mod_converse_mod(a as int, m as int, q as int - 1, r0 + m);
        }
        r0 + m
    } else {
        proof {
            lemma_fundamental_div_mod_converse_mod(a as int, m as int, q as int, r0 as int);
        }
        r0
    }
}

/// Fixed-point multiplication; the product of the stored integers must
/// fit in the machine word.
pub fn fx_mul(a: i64, b: i64) -> (r: i64)
    requires
        -0x7fff_ffff_ffff_ffff <= a * b <= 0x7fff_ffff_ffff_ffff,
    ensures
        r == fmul(a as int, b as int),
{
    let p: i64 = a * b;
    div_trunc(p, ONE)
}

/// Truncated division shrinks the magnitude: a bound on the dividend
/// carries over to the quotient.
pub proof fn lemma_sdiv_bound(a: int, d: int, bound: int)
    requires
        d > 0,
        -bound <= a <= bound,
        0 <= bound,
    ensures
        -bound <= sdiv(a, d) <= bound,
        -(bound / d) <= sdiv(a, d) <= bound / d,
{
    vstd::arithmetic::div_mod::lemma_div_nonincreasing(bound, d);
    vstd::arithmetic::div_mod::lemma_div_of0(d);
    if bound > 0 {
        vstd::arithmetic::div_mod::lemma_div_pos_is_pos(bound, d);
    }
    if a >= 0 {
        lemma_div_is_ordered(0, a, d);
        lemma_div_is_ordered(a, bound, d);
    } else {
        lemma_div_is_ordered(0, -a, d);
        lemma_div_is_ordered(-a, bound, d);
    }
}

/// A bound on both fixed-point factors bounds their fixed-point product.
pub proof fn lemma_fmul_bound(a: int, b: int, ba: int, bb: int)
    requires
        -ba <= a <= ba,
        -bb <= b <= bb,
        0 <= ba,
        0 <= bb,
    ensures
        -(ba * bb) <= a * b <= ba * bb,
        -((ba * bb) / ONE as int) <= fmul(a, b) <= (ba * bb) / ONE as int,
{
    assert(-(ba * bb) <= a * b <= ba * bb) by (nonlinear_arith)
        requires
            -ba <= a <= ba,
            -bb <= b <= bb,
            0 <= ba,
            0 <= bb,
    ;
    lemma_sdiv_bound(a * b, ONE as int, ba * bb);
}

/// A fixed-point factor in `[-1, 1]` contracts: the product's magnitude
/// never exceeds the other factor's.
pub proof fn lemma_fmul_contract(v: int, w: int)
    requires
        0 <= v,
        -(ONE as int) <= w <= ONE,
    ensures
        -v <= fmul(v, w) <= v,
{
    assert(-(v * ONE) <= v * w <= v * ONE) by (nonlinear_arith)
        requires
            0 <= v,
            -65536 <= w <= 65536,
            ONE == 65536,
    ;
    lemma_sdiv_bound(v * w, ONE as int, v * ONE);
    vstd::arithmetic::div_mod::lemma_div_by_multiple(v, ONE as int);
}

/// Integer square root, defined by primitive recursion; the executable
/// [`isqrt64`] is proved to agree with it.
pub open spec fn isqrt_spec(n: nat) -> nat
    decreases n,
{
    if n == 0 {
        0
    } else {
        let p = isqrt_spec((n - 1) as nat);
        if (p + 1) * (p + 1) <= n {
            p + 1
        } else {
            p
        }
    }
}

/// The recursive square root is indeed the floor of the real square root.
pub proof fn lemma_isqrt_spec_bounds(n: nat)
    ensures
        (isqrt_spec(n) as int) * (isqrt_spec(n) as int) <= n as int,
        (n as int) < (isqrt_spec(n) as int + 1) * (isqrt_spec(n) as int + 1),
    decreases n,
{
    if n == 0 {
        assert(isqrt_spec(n) == 0);
        assert((0int) * (0int) <= n as int);
    } else {
        lemma_isqrt_spec_bounds((n - 1) as nat);
        let p = isqrt_spec((n - 1) as nat) as int;
        let s = isqrt_spec(n) as int;
        if (p + 1) * (p + 1) <= n {
            assert(s == p + 1);
            assert(s * s <= n) by (nonlinear_arith)
                requires
                    s == p + 1,
                    (p + 1) * (p + 1) <= n,
            ;
            assert(n < (s + 1) * (s + 1)) by (nonlinear_arith)
                requires
                    s == p + 1,
                    0 <= p,
                    n < (p + 1) * (p + 1) + 1,
            ;
        } else {
            assert(s == p);
            assert(s * s <= n) by (nonlinear_arith)
                requires
                    s == p,
                    p * p <= n - 1,
            ;
            assert(n < (s + 1) * (s + 1)) by (nonlinear_arith)
                requires
                    s == p,
                    n < (p + 1) * (p + 1),
            ;
        }
    }
}

/// Any value with the floor-of-square-root property equals `isqrt_spec`.
pub proof fn lemma_isqrt_unique(n: nat, r: int)
    requires
        0 <= r,
        r * r <= n as int,
        (n as int) < (r + 1) * (r + 1),
    ensures
        r == isqrt_spec(n),
{
    lemma_isqrt_spec_bounds(n);
    let s = isqrt_spec(n) as int;
    let ri = r;
    assert(ri == s) by (nonlinear_arith)
        requires
            0 <= ri,
            0 <= s,
            ri * ri <= n,
            n < (ri + 1) * (ri + 1),
            s * s <= n,
            n < (s + 1) * (s + 1),
    ;
}

/// Integer square root of a 62-bit value by binary search.
pub fn isqrt64(n: u64) -> (r: u64)
    requires
        n < 0x4000_0000_0000_0000,
    ensures
        r == isqrt_spec(n as nat),
        r * r <= n < (r + 1) * (r + 1),
        r <= 0x8000_0000,
{
    let mut lo: u64 = 0;
    let mut hi: u64 = 0x8000_0000;
    proof {
        assert((hi + 1) * (hi + 1) > n) by (nonlinear_arith)
            requires
                hi == 0x8000_0000u64,
                n < 0x4000_0000_0000_0000,
        ;
    }
    while lo < hi
        invariant
            lo <= hi <= 0x8000_0000,
            lo * lo <= n,
            n < (hi + 1) * (hi + 1),
        decreases hi - lo,
    {
        let mid = lo + (hi - lo + 1) / 2;
        assert(lo < mid <= hi);
        proof {
            assert(mid * mid <= 0x4000_0000_0000_0000) by (nonlinear_arith)
                requires
                    mid <= 0x8000_0000u64,
            ;
        }
        if mid * mid <= n {
            lo = mid;
        } else {
            hi = mid - 1;
        }
    }
    proof {
        lemma_isqrt_unique(n as nat, lo as int);
    }
    lo
}

/// Fixed-point square root of a non-negative fixed-point value.
pub open spec fn fsqrt(x: int) -> int {
    isqrt_spec((x * ONE) as nat) as int
}

/// Executable fixed-point square root.
pub fn fx_sqrt(x: i64) -> (r: i64)
    requires
        0 <= x < 0x4000_0000_0000,
    ensures
        r == fsqrt(x as int),
        0 <= r <= 0x8000_0000,
{
    proof {
        assert((x as u64) * (ONE as u64) < 0x4000_0000_0000_0000) by (nonlinear_arith)
            requires
                0 <= x < 0x4000_0000_0000,
                ONE == 65536,
        ;
    }
    let scaled: u64 = (x as u64) * (ONE as u64);
    let r = isqrt64(scaled);
    r as i64
}

} // verus!
