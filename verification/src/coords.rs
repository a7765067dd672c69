//! The coordinate sampler: evenly spaced fixed-point sequences over a
//! range, inclusive of both endpoints, with the sampler's laws.
//!
//! A deliberate quirk is kept from the sampler's documented behaviour:
//! a request for exactly one element yields `[end - start]`, not the
//! start or the end.

use vstd::prelude::*;

verus! {

use crate::fixed::sdiv;
use crate::fixed::div_trunc;
use vstd::arithmetic::div_mod::{lemma_div_is_ordered, lemma_div_by_multiple, lemma_div_of0, lemma_fundamental_div_mod, lemma_div_multiples_vanish_fancy, lemma_hoist_over_denominator, lemma_div_pos_is_pos};

/// Element `i` of the evenly spaced sequence of `n` values from `s` to
/// `e`: exact interpolation by truncated division, so that element 0 is
/// exactly `s` and element `n - 1` exactly `e`.  For `n == 1` the single
/// element is `e - s`.
pub open spec fn linspace_at(n: int, s: int, e: int, i: int) -> int {
    if n == 1 {
        e - s
    } else {
        s + sdiv((e - s) * i, n - 1)
    }
}

/// The gap between consecutive elements of the sequence.
pub open spec fn linspace_gap(n: int, s: int, e: int, i: int) -> int {
    linspace_at(n, s, e, i + 1) - linspace_at(n, s, e, i)
}

/// Evenly spaced coordinate vector of `num_elements` fixed-point values
/// from `start_value` to `end_value` inclusive.
pub fn vector(num_elements: usize, start_value: i64, end_value: i64) -> (v: Vec<i64>)
    requires
        1 <= num_elements <= 0x10_0000,
        -0x100_0000_0000 <= start_value <= 0x100_0000_0000,
        -0x100_0000_0000 <= end_value <= 0x100_0000_0000,
    ensures
        v@.len() == num_elements,
        forall|i: int|
            0 <= i < num_elements ==> #[trigger] v@[i] == linspace_at(
                num_elements as int,
                start_value as int,
                end_value as int,
                i,
            ),
        forall|i: int|
            0 <= i < num_elements ==> -0x200_0000_0000 <= #[trigger] v@[i] <= 0x200_0000_0000,
{
    let mut v: Vec<i64> = Vec::new();
    if num_elements == 1 {
        v.push(end_value - start_value);
        return v;
    }
    let d = end_value - start_value;
    let m = (num_elements - 1) as i64;
    let mut i: usize = 0;
    while i < num_elements
        invariant
            num_elements >= 2,
            0 <= i <= num_elements <= 0x10_0000,
            d == end_value - start_value,
            -0x200_0000_0000 <= d <= 0x200_0000_0000,
            -0x100_0000_0000 <= start_value <= 0x100_0000_0000,
            -0x100_0000_0000 <= end_value <= 0x100_0000_0000,
            m == num_elements - 1,
            v@.len() == i,
            forall|j: int|
                0 <= j < i ==> #[trigger] v@[j] == linspace_at(
                    num_elements as int,
                    start_value as int,
                    end_value as int,
                    j,
                ),
            forall|j: int| 0 <= j < i ==> -0x200_0000_0000 <= #[trigger] v@[j] <= 0x200_0000_0000,
        decreases num_elements - i,
    {
        proof {
            assert(-0x2000_0000_0000_0000 <= (d as int) * (i as int) <= 0x2000_0000_0000_0000)
                by (nonlinear_arith)
                requires
                    -0x200_0000_0000 <= d <= 0x200_0000_0000,
                    0 <= i <= 0x10_0000,
            ;
        }
        let q = div_trunc(d * (i as i64), m);
        proof {
            lemma_linspace_term_bound(d as int, m as int, i as int);
        }
        let val = start_value + q;
        v.push(val);
        i = i + 1;
    }
    v
}

/// One element of the evenly spaced sequence, computed directly.
pub fn sample_at(n: usize, s: i64, e: i64, j: usize) -> (v: i64)
    requires
        2 <= n <= 0x10_0000,
        j < n,
        -0x100_0000_0000 <= s <= 0x100_0000_0000,
        -0x100_0000_0000 <= e <= 0x100_0000_0000,
    ensures
        v == linspace_at(n as int, s as int, e as int, j as int),
        s <= e ==> s <= v <= e,
        e < s ==> e <= v <= s,
{
    let d = e - s;
    proof {
        assert(-0x2000_0000_0000_0000 <= (d as int) * (j as int) <= 0x2000_0000_0000_0000)
            by (nonlinear_arith)
            requires
                -0x200_0000_0000 <= d <= 0x200_0000_0000,
                0 <= j <= 0x10_0000,
        ;
        lemma_linspace_term_bound(d as int, n as int - 1, j as int);
    }
    s + div_trunc(d * (j as i64), (n - 1) as i64)
}

/// The interpolation term never exceeds the whole range in magnitude.
proof fn lemma_linspace_term_bound(d: int, m: int, i: int)
    requires
        m >= 1,
        0 <= i <= m,
        -0x200_0000_0000 <= d <= 0x200_0000_0000,
    ensures
        d >= 0 ==> 0 <= sdiv(d * i, m) <= d,
        d < 0 ==> d <= sdiv(d * i, m) <= 0,
{
    let a = if d >= 0 {
        d
    } else {
        -d
    };
    assert(0 <= a * i <= a * m) by (nonlinear_arith)
        requires
            0 <= i <= m,
            0 <= a,
    ;
    lemma_div_is_ordered(0, a * i, m);
    lemma_div_is_ordered(a * i, a * m, m);
    lemma_div_by_multiple(a, m);
    if d < 0 {
        assert(d * i == -(a * i)) by (nonlinear_arith)
            requires
                a == -d,
        ;
    }
}

/// A sampled element lies between the two endpoints.
pub proof fn lemma_linspace_range(n: int, s: int, e: int, i: int)
    requires
        n >= 2,
        0 <= i < n,
        -0x200_0000_0000 <= e - s <= 0x200_0000_0000,
    ensures
        s <= e ==> s <= linspace_at(n, s, e, i) <= e,
        e < s ==> e <= linspace_at(n, s, e, i) <= s,
{
    lemma_linspace_term_bound(e - s, n - 1, i);
}

/// Law of the coordinate sampler for more than one element: the
/// sequence has `n` values, begins exactly at the start, ends exactly at
/// the end, and any two of its gaps differ by at most one fixed-point
/// unit (constant spacing up to rounding).
pub proof fn lemma_linspace_properties(n: int, s: int, e: int)
    requires
        n >= 2,
    ensures
        linspace_at(n, s, e, 0) == s,
        linspace_at(n, s, e, n - 1) == e,
        forall|i: int, j: int|
            0 <= i < n - 1 && 0 <= j < n - 1 ==> -1 <= #[trigger] linspace_gap(n, s, e, i)
                - #[trigger] linspace_gap(n, s, e, j) <= 1,
{
    let d = e - s;
    let m = n - 1;
    // First element: the interpolation term vanishes.
    assert(d * 0 == 0) by (nonlinear_arith);
    lemma_div_of0(m);
    // Last element: the term is the exact multiple d.
    if d >= 0 {
        lemma_div_by_multiple(d, m);
        assert(sdiv(d * m, m) == d);
    } else {
        lemma_div_by_multiple(-d, m);
        assert((-d) * m == -(d * m)) by (nonlinear_arith);
        assert(sdiv(d * m, m) == d);
    }
    // Gaps: every gap is floor(d/m) or floor(d/m) + 1 (mirrored when the
    // range is negative), so two gaps differ by at most one.
    assert forall|i: int| 0 <= i < n - 1 implies gap_lo(d, m) <= #[trigger] linspace_gap(n, s, e, i)
        <= gap_lo(d, m) + 1 by {
        lemma_gap_bounds(d, m, i);
    }
}

/// The smaller of the two values every gap can take.
spec fn gap_lo(d: int, m: int) -> int {
    if d >= 0 {
        d / m
    } else {
        -((-d + m - 1) / m)
    }
}

/// Every gap of the interpolated sequence is `gap_lo` or `gap_lo + 1`.
proof fn lemma_gap_bounds(d: int, m: int, i: int)
    requires
        m >= 1,
        0 <= i < m,
    ensures
        gap_lo(d, m) <= sdiv(d * (i + 1), m) - sdiv(d * i, m) <= gap_lo(d, m) + 1,
{
    if d >= 0 {
        lemma_gap_bounds_nonneg(d, m, i);
    } else {
        lemma_gap_bounds_nonneg(-d, m, i);
        assert((-d) * i == -(d * i) && (-d) * (i + 1) == -(d * (i + 1))) by (nonlinear_arith);
        // sdiv(d * (i + 1), m) - sdiv(d * i, m)
        //     == -(((-d) * (i + 1)) / m) + ((-d) * i) / m
        // and the nonnegative bounds flip sign.
        assert((-d + m - 1) / m == ((-d) + (m - 1)) / m);
    }
}

/// Gap bounds for a nonnegative range: each gap of `floor(d * i / m)`
/// lies between `floor(d / m)` and `floor((d + m - 1) / m)`, and those
/// two bounds differ by at most one.
proof fn lemma_gap_bounds_nonneg(d: int, m: int, i: int)
    requires
        m >= 1,
        d >= 0,
        0 <= i < m,
    ensures
        d / m <= (d * (i + 1)) / m - (d * i) / m <= (d + m - 1) / m,
        (d + m - 1) / m <= d / m + 1,
        sdiv(d * (i + 1), m) == (d * (i + 1)) / m,
        sdiv(d * i, m) == (d * i) / m,
{
    let q = (d * i) / m;
    let r = (d * i) % m;
    lemma_fundamental_div_mod(d * i, m);
    assert(d * i >= 0) by (nonlinear_arith)
        requires
            d >= 0,
            i >= 0,
    ;
    assert(d * (i + 1) >= 0) by (nonlinear_arith)
        requires
            d >= 0,
            i >= 0,
    ;
    assert(d * (i + 1) == m * q + (r + d)) by (nonlinear_arith)
        requires
            d * i == m * q + r,
    ;
    lemma_hoist_over_denominator(r + d, q, m as nat);
    assert((r + d + q * m) / m == q + (r + d) / m);
    assert(m * q + (r + d) == r + d + q * m) by (nonlinear_arith);
    assert((d * (i + 1)) / m == q + (r + d) / m);
    // 0 <= r < m bounds the extra quotient between d/m and (d+m-1)/m.
    lemma_div_is_ordered(d, r + d, m);
    lemma_div_is_ordered(r + d, d + m - 1, m);
    // (d + m - 1) / m == 1 + (d - 1) / m <= 1 + d / m.
    lemma_hoist_over_denominator(d - 1, 1int, m as nat);
    assert((d - 1 + 1 * m) / m == 1 + (d - 1) / m);
    assert(d - 1 + 1 * m == d + m - 1) by (nonlinear_arith);
    if d >= 1 {
        lemma_div_is_ordered(d - 1, d, m);
    } else {
        assert(d == 0);
        lemma_div_of0(m);
        assert((0 - 1 + 1 * m) / m == 1 + (0 - 1) / m);
        assert((m - 1) / m == 0) by {
            vstd::arithmetic::div_mod::lemma_basic_div(m - 1, m);
        }
    }
}

} // verus!
