//! Integer helpers for the fixed-point arithmetic used throughout the crate:
//! floor and ceiling division for grid-index math, and round-to-nearest
//! division (ties away from zero) for means and output rounding.

use vstd::prelude::*;
use vstd::arithmetic::div_mod::lemma_fundamental_div_mod;
use vstd::arithmetic::div_mod::lemma_fundamental_div_mod_converse;

verus! {

/// Round-to-nearest quotient of `n / d`, ties away from zero.
pub open spec fn round_div_spec(n: int, d: int) -> int
    recommends
        d > 0,
{
    if n >= 0 {
        (n + d / 2) / d
    } else {
        -((-n + d / 2) / d)
    }
}

/// Floor division is bounded by the quotient from either side:
/// `d * (a / d)` lands in `(a - d, a]`.
pub proof fn lemma_floor_div_bounds(a: int, d: int)
    requires
        d > 0,
    ensures
        d * (a / d) <= a < d * (a / d) + d,
{
    lemma_fundamental_div_mod(a, d);
}

/// Floor division of `a` by `d`, i.e. the quotient rounded toward
/// negative infinity, matching the `/` of mathematical integers.
pub fn floor_div(a: i64, d: i64) -> (q: i64)
    requires
        1 <= d <= 1_000_000_000,
        -1_000_000_000_000 <= a <= 1_000_000_000_000,
    ensures
        q == a as int / d as int,
{
    if a >= 0 {
        let q = (a as u64) / (d as u64);
        q as i64
    } else {
        let n = (-a) as u64;
        let du = d as u64;
        let q = (n + du - 1) / du;
        proof {
            let ni = n as int;
            let di = d as int;
            lemma_fundamental_div_mod(ni, di);
            let qq = ni / di;
            let r = ni % di;
            if r == 0 {
                assert(ni + di - 1 == qq * di + (di - 1) && -ni == (-qq) * di + 0)
                    by (nonlinear_arith)
                    requires ni == di * qq + r && r == 0;
                lemma_fundamental_div_mod_converse(ni + di - 1, di, qq, di - 1);
                lemma_fundamental_div_mod_converse(-ni, di, -qq, 0);
            } else {
                assert(ni + di - 1 == (qq + 1) * di + (r - 1) && -ni == (-qq - 1) * di + (di
                    - r)) by (nonlinear_arith)
                    requires ni == di * qq + r;
                lemma_fundamental_div_mod_converse(ni + di - 1, di, qq + 1, r - 1);
                lemma_fundamental_div_mod_converse(-ni, di, -qq - 1, di - r);
            }
        }
        -(q as i64)
    }
}

/// Ceiling division of `a` by `d`: the least integer at least `a / d`.
/// As a mathematical integer this is `-((-a) / d)`.
pub fn ceil_div(a: i64, d: i64) -> (q: i64)
    requires
        1 <= d <= 1_000_000_000,
        -1_000_000_000_000 <= a <= 1_000_000_000_000,
    ensures
        q == -((-a) / (d as int)),
{
    let f = floor_div(-a, d);
    proof {
        lemma_floor_div_bounds(-(a as int), d as int);
        let fi = (-(a as int)) / d as int;
        assert(-1_000_000_000_001 <= fi <= 1_000_000_000_000) by (nonlinear_arith)
            requires
                d as int * fi <= -(a as int) < d as int * fi + d as int,
                1 <= d as int <= 1_000_000_000,
                -1_000_000_000_000 <= a as int <= 1_000_000_000_000,
        ;
    }
    -f
}

/// Round-to-nearest division of a wide accumulator sum by a positive
/// count, ties away from zero; used to finalize a cell mean.
pub fn round_div_i128(n: i128, d: u32) -> (q: i128)
    requires
        d >= 1,
        -0x100_0000_0000_0000_0000_0000_0000_0000 <= n
            <= 0x100_0000_0000_0000_0000_0000_0000_0000,
    ensures
        q == round_div_spec(n as int, d as int),
{
    let du = d as u128;
    if n >= 0 {
        let q = ((n as u128) + du / 2) / du;
        proof {
            lemma_floor_div_bounds(n as int + d as int / 2, d as int);
        }
        q as i128
    } else {
        let q = (((-n) as u128) + du / 2) / du;
        proof {
            lemma_floor_div_bounds(-(n as int) + d as int / 2, d as int);
        }
        -(q as i128)
    }
}

/// The fixed-precision rounding applied to every non-missing output value:
/// `v` rounded to the nearest multiple of `unit`, ties away from zero.
pub open spec fn round_to_unit_spec(v: int, unit: int) -> int
    recommends
        unit > 0,
{
    round_div_spec(v, unit) * unit
}

/// Round a value to the nearest multiple of `unit`, ties away from zero.
pub fn round_to_unit(v: i64, unit: i64) -> (r: i64)
    requires
        1 <= unit <= 1_000_000_000_000,
        -0x7000_0000_0000_0000 <= v <= 0x7000_0000_0000_0000,
    ensures
        r == round_to_unit_spec(v as int, unit as int),
{
    let u = unit as u128;
    if v >= 0 {
        let a = (v as u128) + u / 2;
        let q = a / u;
        proof {
            lemma_floor_div_bounds(a as int, unit as int);
            assert(0 <= (q as int) * (unit as int) <= a as int) by (nonlinear_arith)
                requires
                    unit as int * (q as int) <= a as int,
                    q as int >= 0,
                    unit as int >= 1,
            ;
        }
        let m = q * u;
        m as i64
    } else {
        let a = ((-v) as u128) + u / 2;
        let q = a / u;
        proof {
            lemma_floor_div_bounds(a as int, unit as int);
            assert(0 <= (q as int) * (unit as int) <= a as int) by (nonlinear_arith)
                requires
                    unit as int * (q as int) <= a as int,
                    q as int >= 0,
                    unit as int >= 1,
            ;
            assert((-(q as int)) * (unit as int) == -((q as int) * (unit as int)))
                by (nonlinear_arith);
        }
        let m = q * u;
        -(m as i64)
    }
}

} // verus!
