//! Fixed-point exponential and logarithms.
//!
//! The exponential goes through base two: the argument is divided by ln 2,
//! split into integer and fractional bits, the fractional power handled by
//! a short Taylor sum and the integer power by doubling.  The base-two
//! logarithm extracts the leading bit position and then refines sixteen
//! fractional bits by repeated squaring; natural and decimal logarithms
//! rescale it.  A logarithm of a non-positive value yields the sentinel
//! [`LOG_UNDEF`] instead of aborting, so one degenerate sample can never
//! spoil its neighbours.

use vstd::prelude::*;

verus! {

use crate::fixed::{ONE, sdiv, div_trunc, mod_euclid};
use vstd::arithmetic::power2::{pow2, lemma_pow2_unfold, lemma_pow2_adds, lemma_pow2_strictly_increases, lemma2_to64, lemma2_to64_rest, lemma_pow2_pos};
use vstd::arithmetic::div_mod::{lemma_div_is_ordered, lemma_div_is_ordered_by_denominator, lemma_div_denominator, lemma_fundamental_div_mod, lemma_div_multiples_vanish};
use vstd::arithmetic::mul::lemma_mul_inequality;

/// ln 2 in fixed-point units.
pub const LN2: i64 = 45426;

/// log10 of 2 in fixed-point units.
pub const LOG10_2: i64 = 19728;

/// Largest argument the exponential accepts (30 in real terms): e^30
/// scaled by [`ONE`] still fits comfortably in a machine word.
pub const EXP_ARG_MAX: i64 = 1966080;

/// Upper bound on every value the fixed-point exponential returns.
pub const EXP_FX_MAX: i64 = 0x5800_0000_0000_0000;

/// Sentinel for the logarithm of a non-positive value, which is
/// mathematically undefined: a defined but meaningless stand-in.
pub const LOG_UNDEF: i64 = -0x8000_0000_0000;

/// Term `k` of the Taylor sum of e^(u / ONE), scaled by [`ONE`]:
/// each term is the previous one times `u`, divided by `k`.
pub open spec fn exp_term(u: int, k: nat) -> int
    decreases k,
{
    if k == 0 {
        ONE as int
    } else {
        sdiv(exp_term(u, (k - 1) as nat) * u, ONE * (k as int))
    }
}

/// Taylor sum of e^(u / ONE) through term `k`, scaled by [`ONE`].
pub open spec fn exp_sum(u: int, k: nat) -> int
    decreases k,
{
    if k == 0 {
        ONE as int
    } else {
        exp_sum(u, (k - 1) as nat) + exp_term(u, k)
    }
}

/// Two to the power `y / ONE` for `y >= 0`, scaled by [`ONE`]: a Taylor
/// sum for the fractional bits times a shift for the integer bits.
pub open spec fn fexp2(y: int) -> int {
    exp_sum(sdiv((y % (ONE as int)) * LN2, ONE as int), 10) * pow2((y / (ONE as int)) as nat)
}

/// e to the power `x / ONE` for `x >= 0`, scaled by [`ONE`].
pub open spec fn fexp_pos(x: int) -> int {
    fexp2(sdiv(x * ONE, LN2 as int))
}

/// Fixed-point exponential of any argument up to [`EXP_ARG_MAX`]:
/// negative arguments go through the reciprocal, and arguments below
/// `-EXP_ARG_MAX` give 0, which is the value's whole fixed-point
/// resolution there anyway.
pub open spec fn fexp(x: int) -> int {
    if x >= 0 {
        fexp_pos(x)
    } else if x >= -EXP_ARG_MAX {
        sdiv((ONE as int) * (ONE as int), fexp_pos(-x))
    } else {
        0
    }
}

/// Floor of the base-two logarithm of a positive integer.
pub open spec fn ilog2(x: int) -> int
    decreases x,
{
    if x < 2 {
        0
    } else {
        1 + ilog2(x / 2)
    }
}

/// `x` scaled into `[ONE, 2 * ONE)` by a power of two.
pub open spec fn fnorm(x: int) -> int {
    let p = ilog2(x);
    if p >= 16 {
        x / (pow2((p - 16) as nat) as int)
    } else {
        x * (pow2((16 - p) as nat) as int)
    }
}

/// The fractional bits of the base-two logarithm of `y / ONE` for
/// `y` in `[ONE, 2 * ONE)`, refined by `i` squarings.
pub open spec fn lfrac(y: int, i: nat) -> int
    decreases i,
{
    if i == 0 {
        0
    } else {
        let y2 = sdiv(y * y, ONE as int);
        if y2 >= 2 * ONE {
            pow2((i - 1) as nat) + lfrac(sdiv(y2, 2), (i - 1) as nat)
        } else {
            lfrac(y2, (i - 1) as nat)
        }
    }
}

/// Fixed-point base-two logarithm of a positive fixed-point value, with
/// the sentinel for non-positive input.
pub open spec fn flog2(x: int) -> int {
    if x < 1 {
        LOG_UNDEF as int
    } else {
        (ilog2(x) - 16) * ONE + lfrac(fnorm(x), 16)
    }
}

/// Fixed-point natural logarithm.
pub open spec fn fln(x: int) -> int {
    if x < 1 {
        LOG_UNDEF as int
    } else {
        sdiv(flog2(x) * LN2, ONE as int)
    }
}

/// Fixed-point decimal logarithm.
pub open spec fn flog10(x: int) -> int {
    if x < 1 {
        LOG_UNDEF as int
    } else {
        sdiv(flog2(x) * LOG10_2, ONE as int)
    }
}

/// Executable exponential for non-negative arguments.
fn exp_pos_fx(x: i64) -> (r: i64)
    requires
        0 <= x <= EXP_ARG_MAX,
    ensures
        r == fexp_pos(x as int),
        ONE <= r <= EXP_FX_MAX,
{
    let y = div_trunc(x * ONE, LN2);
    proof {
        lemma_div_is_ordered(x as int * ONE, 128849018880, LN2 as int);
        assert(y <= 2836500);
    }
    let n = div_trunc(y, ONE);
    let f = mod_euclid(y, ONE);
    proof {
        lemma_div_is_ordered(y as int, 2836500, ONE as int);
        assert(0 <= n <= 43);
    }
    let u = div_trunc(f * LN2, ONE);
    proof {
        lemma_div_is_ordered(f as int * LN2, 65535 * (LN2 as int), ONE as int);
        assert(0 <= u <= 45425);
    }
    let mut term: i64 = ONE;
    let mut sum: i64 = ONE;
    let mut k: u64 = 1;
    while k <= 10
        invariant
            1 <= k <= 11,
            0 <= u <= 45425,
            term == exp_term(u as int, (k - 1) as nat),
            sum == exp_sum(u as int, (k - 1) as nat),
            0 <= term <= ONE,
            ONE <= sum <= k * (ONE as int),
        decreases 11 - k,
    {
        let kk = k as i64;
        proof {
            assert(0 <= (term as int) * (u as int) <= 65536 * 45425) by (nonlinear_arith)
                requires
                    0 <= term <= 65536,
                    0 <= u <= 45425,
            ;
        }
        let p = term * u;
        let den = ONE * kk;
        let newterm = div_trunc(p, den);
        proof {
            lemma_div_is_ordered_by_denominator(p as int, ONE as int, den as int);
            lemma_div_is_ordered(p as int, 2976972800, ONE as int);
            assert(newterm == exp_term(u as int, k as nat));
            assert(0 <= newterm <= ONE);
        }
        term = newterm;
        sum = sum + term;
        k = k + 1;
    }
    let mut acc: i64 = sum;
    let mut i: i64 = 0;
    proof {
        lemma2_to64();
        assert(acc == exp_sum(u as int, 10) * pow2(0));
    }
    while i < n
        invariant
            0 <= i <= n <= 43,
            ONE <= sum <= 11 * (ONE as int),
            acc == exp_sum(u as int, 10) * pow2(i as nat),
            sum == exp_sum(u as int, 10),
            ONE <= acc <= (sum as int) * pow2(i as nat),
        decreases n - i,
    {
        proof {
            lemma2_to64();
            lemma2_to64_rest();
            lemma_pow2_unfold((i + 1) as nat);
            if (i as nat) < 42 {
                lemma_pow2_strictly_increases(i as nat, 42);
            }
            assert(pow2(i as nat) <= 0x400_0000_0000);
            assert(acc * 2 <= 0x5800_0000_0000_0000) by (nonlinear_arith)
                requires
                    acc <= (sum as int) * pow2(i as nat),
                    sum <= 720896,
                    pow2(i as nat) <= 0x400_0000_0000,
                    acc >= 1,
                    sum >= 1,
                    pow2(i as nat) >= 1,
            ;
            assert(acc * 2 == exp_sum(u as int, 10) * pow2((i + 1) as nat)) by (nonlinear_arith)
                requires
                    acc == exp_sum(u as int, 10) * pow2(i as nat),
                    pow2((i + 1) as nat) == 2 * pow2(i as nat),
            ;
            assert(acc * 2 <= (sum as int) * pow2((i + 1) as nat)) by (nonlinear_arith)
                requires
                    acc <= (sum as int) * pow2(i as nat),
                    pow2((i + 1) as nat) == 2 * pow2(i as nat),
                    sum >= 1,
            ;
        }
        acc = acc * 2;
        i = i + 1;
    }
    proof {
        assert(acc == fexp2(y as int));
        lemma2_to64();
        lemma2_to64_rest();
        if (i as nat) < 43 {
            lemma_pow2_strictly_increases(i as nat, 43);
        }
        assert(pow2(i as nat) <= 0x800_0000_0000);
        assert(acc <= 0x5800_0000_0000_0000) by (nonlinear_arith)
            requires
                acc <= (sum as int) * pow2(i as nat),
                sum <= 720896,
                pow2(i as nat) <= 0x800_0000_0000,
                sum >= 1,
                pow2(i as nat) >= 1,
        ;
    }
    acc
}

/// The Taylor sum collapses to its first term on a zero argument.
proof fn lemma_exp_sum_zero(k: nat)
    ensures
        exp_term(0, k) == if k == 0 {
            ONE as int
        } else {
            0
        },
        exp_sum(0, k) == ONE,
    decreases k,
{
    if k > 0 {
        lemma_exp_sum_zero((k - 1) as nat);
        vstd::arithmetic::div_mod::lemma_div_of0(ONE * (k as int));
    }
}

/// The exponential of zero is exactly one.
pub proof fn lemma_fexp_zero()
    ensures
        fexp(0) == ONE,
{
    vstd::arithmetic::div_mod::lemma_div_of0(LN2 as int);
    assert(sdiv(0 * (ONE as int), LN2 as int) == 0) by {
        assert(0 * (ONE as int) == 0);
    }
    assert(fexp_pos(0) == fexp2(0));
    lemma_exp_sum_zero(10);
    vstd::arithmetic::div_mod::lemma_small_mod(0, ONE as nat);
    vstd::arithmetic::div_mod::lemma_div_of0(ONE as int);
    assert(0int % (ONE as int) == 0);
    assert(0int / (ONE as int) == 0);
    assert(sdiv(0 * (LN2 as int), ONE as int) == 0) by {
        assert(0 * (LN2 as int) == 0);
    }
    lemma2_to64();
    assert(pow2(0) == 1);
    assert(fexp2(0) == exp_sum(0, 10) * pow2(0));
    assert(exp_sum(0, 10) * pow2(0) == ONE) by (nonlinear_arith)
        requires
            exp_sum(0, 10) == ONE,
            pow2(0) == 1,
    ;
}

/// Executable fixed-point exponential.
pub fn exp_fx(x: i64) -> (r: i64)
    requires
        i64::MIN < x <= EXP_ARG_MAX,
    ensures
        r == fexp(x as int),
        0 <= r <= EXP_FX_MAX,
        x >= 0 ==> r >= ONE,
        x <= 0 ==> r <= ONE,
{
    if x >= 0 {
        let r = exp_pos_fx(x);
        proof {
            if x == 0 {
                lemma_fexp_zero();
            }
        }
        r
    } else if x < -EXP_ARG_MAX {
        0
    } else {
        let p = exp_pos_fx(-x);
        let r = div_trunc(ONE * ONE, p);
        proof {
            lemma_div_is_ordered_by_denominator((ONE as int) * (ONE as int), ONE as int, p as int);
            vstd::arithmetic::div_mod::lemma_div_by_multiple(ONE as int, ONE as int);
        }
        r
    }
}

/// Position of the leading binary digit of a positive integer.
fn floor_log2(x: u64) -> (p: u64)
    requires
        x >= 1,
    ensures
        p == ilog2(x as int),
        p <= 63,
        pow2(p as nat) <= x < pow2((p + 1) as nat),
{
    let mut m: u64 = x;
    let mut p: u64 = 0;
    proof {
        lemma2_to64();
    }
    while m >= 2
        invariant
            1 <= m <= x,
            p <= 63,
            m == x as int / pow2(p as nat) as int,
            ilog2(x as int) == p + ilog2(m as int),
            pow2(p as nat) <= x,
        decreases m,
    {
        proof {
            lemma_pow2_unfold((p + 1) as nat);
            lemma_pow2_pos(p as nat);
            lemma_div_denominator(x as int, pow2(p as nat) as int, 2);
            assert(pow2((p + 1) as nat) as int == pow2(p as nat) as int * 2) by (nonlinear_arith)
                requires
                    pow2((p + 1) as nat) == 2 * pow2(p as nat),
            ;
            assert(m / 2 == x as int / pow2((p + 1) as nat) as int);
            // The next power of two still fits under x.
            assert(pow2((p + 1) as nat) <= x) by {
                if pow2((p + 1) as nat) > x {
                    vstd::arithmetic::div_mod::lemma_basic_div(x as int, pow2((p + 1) as nat) as int);
                    assert(x as int / pow2((p + 1) as nat) as int == 0);
                    assert(m / 2 == 0);
                    lemma_div_is_ordered(2, m as int, 2);
                    assert(m as int / 2 >= 1);
                    assert(false);
                }
            };
            if p + 1 > 63 {
                lemma2_to64();
                assert(p + 1 == 64);
                assert(pow2(64) <= x);
                assert(false);
            }
        }
        m = m / 2;
        p = p + 1;
    }
    proof {
        assert(ilog2(m as int) == 0);
        assert(m == 1);
        lemma_pow2_pos(p as nat);
        lemma_fundamental_div_mod(x as int, pow2(p as nat) as int);
        lemma_pow2_unfold((p + 1) as nat);
        assert(x as int == pow2(p as nat) * (x as int / pow2(p as nat) as int) + x as int % pow2(
            p as nat,
        ) as int);
        assert(x < pow2((p + 1) as nat)) by (nonlinear_arith)
            requires
                x as int == pow2(p as nat) * 1 + ((x as int) % (pow2(p as nat) as int)),
                ((x as int) % (pow2(p as nat) as int)) < pow2(p as nat),
                pow2((p + 1) as nat) == 2 * pow2(p as nat),
        ;
    }
    p
}

/// Executable fixed-point base-two logarithm.
pub fn log2_fx(x: i64) -> (r: i64)
    ensures
        r == flog2(x as int),
        x >= 1 ==> -16 * (ONE as int) <= r <= 47 * (ONE as int),
        x >= 4 * ONE ==> r >= 2 * ONE,
        x >= ONE ==> r >= 0,
        x >= 1 ==> r >= LOG_UNDEF,
{
    if x < 1 {
        return LOG_UNDEF;
    }
    let p = floor_log2(x as u64);
    proof {
        lemma2_to64();
        lemma2_to64_rest();
        if p > 62 {
            if p > 63 {
                lemma_pow2_strictly_increases(63, p as nat);
            }
            assert(pow2(63) <= pow2(p as nat));
            assert(false);
        }
    }
    // Normalize into [ONE, 2 * ONE).
    let m: u64;
    if p >= 16 {
        let mut d: u64 = 1;
        let mut j: u64 = 0;
        while j < p - 16
            invariant
                0 <= j <= p - 16 <= 47,
                d == pow2(j as nat),
                1 <= d <= 0x8000_0000_0000,
            decreases p - 16 - j,
        {
            proof {
                lemma_pow2_unfold((j + 1) as nat);
                lemma2_to64();
                lemma2_to64_rest();
                if (j as nat) < 46 {
                    lemma_pow2_strictly_increases(j as nat, 46);
                }
            }
            d = d * 2;
            j = j + 1;
        }
        m = (x as u64) / d;
        proof {
            let pi = p as int;
            let xi = x as int;
            let dd = pow2((pi - 16) as nat) as int;
            assert(m == fnorm(xi));
            // 2^p <= x < 2^(p+1) pins the normalized mantissa.
            lemma_pow2_adds((pi - 16) as nat, 16);
            lemma_pow2_pos((pi - 16) as nat);
            lemma2_to64();
            assert(pow2(pi as nat) == dd * 65536) by (nonlinear_arith)
                requires
                    pow2(pi as nat) == pow2((pi - 16) as nat) * pow2(16),
                    dd == pow2((pi - 16) as nat),
                    pow2(16) == 65536,
            ;
            vstd::arithmetic::div_mod::lemma_div_multiples_vanish(65536, dd);
            lemma_div_is_ordered(dd * 65536, xi, dd);
            assert(65536 <= m);
            // Upper side: x < 2^(p+1) = dd * 131072.
            lemma_pow2_unfold((pi + 1) as nat);
            assert(pow2((pi + 1) as nat) == dd * 131072) by (nonlinear_arith)
                requires
                    pow2((pi + 1) as nat) == 2 * pow2(pi as nat),
                    pow2(pi as nat) == dd * 65536,
            ;
            if m >= 131072 {
                lemma_mul_inequality(131072, m as int, dd);
                assert(m * dd <= xi) by {
                    lemma_fundamental_div_mod(xi, dd);
                    assert(xi == dd * (xi / dd) + xi % dd);
                    assert(m == xi / dd);
                    assert(m * dd == dd * (xi / dd)) by (nonlinear_arith)
                        requires
                            m == xi / dd,
                    ;
                };
                assert(131072 * dd <= xi);
                assert(dd * 131072 == 131072 * dd) by (nonlinear_arith);
                assert(false);
            }
        }
    } else {
        let mut mm: u64 = x as u64;
        let mut j: u64 = 0;
        proof {
            lemma2_to64();
        }
        while j < 16 - p
            invariant
                0 <= j <= 16 - p,
                p < 16,
                mm == x as int * pow2(j as nat) as int,
                mm < pow2((p + 1 + j) as nat),
                pow2((p + j) as nat) <= mm,
            decreases 16 - p - j,
        {
            proof {
                lemma_pow2_unfold((j + 1) as nat);
                lemma_pow2_unfold((p + 1 + j + 1) as nat);
                lemma_pow2_unfold((p + j + 1) as nat);
                lemma2_to64();
                if ((p + 1 + j) as nat) < 17 {
                    lemma_pow2_strictly_increases((p + 1 + j) as nat, 17);
                } else {
                    assert(p + 1 + j == 17);
                }
                assert(mm * 2 == x as int * pow2((j + 1) as nat) as int) by (nonlinear_arith)
                    requires
                        mm == x as int * pow2(j as nat) as int,
                        pow2((j + 1) as nat) == 2 * pow2(j as nat),
                ;
            }
            mm = mm * 2;
            j = j + 1;
        }
        m = mm;
        proof {
            assert(m == fnorm(x as int));
            assert(65536 <= m < 131072) by {
                lemma_pow2_adds((p) as nat, (16 - p) as nat);
                lemma2_to64();
            }
        }
    }
    proof {
        assert(65536 <= m < 131072);
    }
    // Refine sixteen fractional bits by squaring.
    let mut y: u64 = m;
    let mut frac: u64 = 0;
    let mut bit: u64 = 32768;
    let mut j: u64 = 0;
    while j < 16
        invariant
            0 <= j <= 16,
            65536 <= y < 131072,
            j < 16 ==> bit == pow2((15 - j) as nat),
            lfrac(fnorm(x as int), 16) == frac + lfrac(y as int, (16 - j) as nat),
            frac + (if j < 16 { 2 * pow2((15 - j) as nat) } else { 1 }) <= 65536,
        decreases 16 - j,
    {
        proof {
            assert((y as int) * (y as int) < 131072 * 131072) by (nonlinear_arith)
                requires
                    0 <= y < 131072,
            ;
            assert(65536 * 65536 <= (y as int) * (y as int)) by (nonlinear_arith)
                requires
                    65536 <= y,
            ;
        }
        let y2 = (y * y) / 65536;
        proof {
            assert(y2 == sdiv((y as int) * (y as int), ONE as int));
            lemma_div_is_ordered(4294967296, (y as int) * (y as int), 65536);
            lemma_div_is_ordered((y as int) * (y as int), 131072 * 131072 - 1, 65536);
            assert(65536 <= y2 < 262144);
            lemma_pow2_unfold((15 - j) as nat + 1);
            if j < 15 {
                assert((15 - j) as nat == (15 - (j + 1)) as nat + 1);
                lemma_pow2_unfold((15 - j) as nat);
            } else {
                lemma2_to64();
            }
        }
        if y2 >= 2 * 65536 {
            proof {
                assert(lfrac(y as int, (16 - j) as nat) == pow2((15 - j) as nat) + lfrac(
                    sdiv(y2 as int, 2),
                    (15 - j) as nat,
                ));
                assert(y2 / 2 == sdiv(y2 as int, 2));
            }
            frac = frac + bit;
            y = y2 / 2;
        } else {
            proof {
                assert(lfrac(y as int, (16 - j) as nat) == lfrac(y2 as int, (15 - j) as nat));
            }
            y = y2;
        }
        if j < 15 {
            bit = bit / 2;
            proof {
                lemma_pow2_unfold((15 - j) as nat);
                vstd::arithmetic::div_mod::lemma_div_multiples_vanish(
                    pow2((15 - (j + 1)) as nat) as int,
                    2,
                );
            }
        }
        j = j + 1;
    }
    proof {
        assert(lfrac(y as int, 0) == 0);
        assert(lfrac(fnorm(x as int), 16) == frac);
        assert(frac <= 65535);
    }
    let r = (p as i64 - 16) * ONE + (frac as i64);
    proof {
        assert(r == flog2(x as int));
        if x >= 4 * ONE {
            lemma2_to64();
            if p < 18 {
                if ((p + 1) as nat) < 18 {
                    lemma_pow2_strictly_increases((p + 1) as nat, 18);
                }
                assert(pow2((p + 1) as nat) <= pow2(18));
                assert(x < pow2(18));
                assert(false);
            }
        }
        if x >= ONE {
            lemma2_to64();
            if p < 16 {
                if ((p + 1) as nat) < 16 {
                    lemma_pow2_strictly_increases((p + 1) as nat, 16);
                }
                assert(pow2((p + 1) as nat) <= pow2(16));
                assert(x < pow2(16));
                assert(false);
            }
        }
    }
    r
}

/// Executable fixed-point natural logarithm.
pub fn ln_fx(x: i64) -> (r: i64)
    ensures
        r == fln(x as int),
        x >= 1 ==> -16 * (LN2 as int) - 1 <= r <= 47 * (LN2 as int),
        x >= 4 * ONE ==> r >= 90852,
        x >= ONE ==> r >= 0,
{
    if x < 1 {
        return LOG_UNDEF;
    }
    let l = log2_fx(x);
    let r = div_trunc(l * LN2, ONE);
    proof {
        let li = l as int;
        if l >= 0 {
            assert(li * LN2 <= 2135022 * 65536) by (nonlinear_arith)
                requires
                    0 <= li <= 47 * 65536,
                    LN2 == 45426,
            ;
            lemma_div_is_ordered(li * (LN2 as int), 139920801792, ONE as int);
            vstd::arithmetic::div_mod::lemma_div_by_multiple(2135022, 65536);
        } else {
            assert((-li) * LN2 <= 726816 * 65536) by (nonlinear_arith)
                requires
                    0 < -li <= 16 * 65536,
                    LN2 == 45426,
            ;
            lemma_div_is_ordered((-li) * (LN2 as int), 47632613376, ONE as int);
            vstd::arithmetic::div_mod::lemma_div_by_multiple(726816, 65536);
            assert(-(li * LN2) == (-li) * LN2) by (nonlinear_arith);
        }
        if x >= 4 * ONE {
            assert(90852 * 65536 <= li * LN2) by (nonlinear_arith)
                requires
                    li >= 2 * 65536,
                    LN2 == 45426,
            ;
            lemma_div_is_ordered(5954076672, li * (LN2 as int), ONE as int);
            vstd::arithmetic::div_mod::lemma_div_by_multiple(90852, 65536);
        }
    }
    r
}

/// Executable fixed-point decimal logarithm.
pub fn log10_fx(x: i64) -> (r: i64)
    ensures
        r == flog10(x as int),
        x >= 1 ==> -16 * (LOG10_2 as int) - 1 <= r <= 47 * (LOG10_2 as int),
{
    if x < 1 {
        return LOG_UNDEF;
    }
    let l = log2_fx(x);
    let r = div_trunc(l * LOG10_2, ONE);
    proof {
        let li = l as int;
        if l >= 0 {
            assert(li * LOG10_2 <= 927216 * 65536) by (nonlinear_arith)
                requires
                    0 <= li <= 47 * 65536,
                    LOG10_2 == 19728,
            ;
            lemma_div_is_ordered(li * (LOG10_2 as int), 60766027776, ONE as int);
            vstd::arithmetic::div_mod::lemma_div_by_multiple(927216, 65536);
        } else {
            assert((-li) * LOG10_2 <= 315648 * 65536) by (nonlinear_arith)
                requires
                    0 < -li <= 16 * 65536,
                    LOG10_2 == 19728,
            ;
            lemma_div_is_ordered((-li) * (LOG10_2 as int), 20686307328, ONE as int);
            vstd::arithmetic::div_mod::lemma_div_by_multiple(315648, 65536);
            assert(-(li * LOG10_2) == (-li) * LOG10_2) by (nonlinear_arith);
        }
    }
    r
}

} // verus!
