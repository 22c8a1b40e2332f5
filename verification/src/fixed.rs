//! Fixed-point scalars.
//!
//! A quantity `q` is stored as the `i64` nearest to zero that does not pass
//! `q * UNIT`, so one step of an `i64` is a millionth.  Results that leave
//! `-LIMIT ..= LIMIT` stick to the nearer end of that range, and every
//! division rounds toward zero.  The range is symmetric, so negation is exact
//! and `f(-a) == -f(a)` holds for each operation here.
use vstd::prelude::*;

verus! {

/// The stored value of the quantity one.
pub const UNIT: i64 = 1_000_000;

/// The largest magnitude that is stored; `i64::MIN` alone lies beyond it.
pub const LIMIT: i64 = 0x7fff_ffff_ffff_ffff;

/// Whether `v` is a value that arithmetic here hands out.
pub open spec fn finite(v: int) -> bool {
    -LIMIT <= v <= LIMIT
}

/// The value in `-LIMIT ..= LIMIT` nearest to `v`.
pub open spec fn clamp(v: int) -> i64 {
    if v > LIMIT {
        LIMIT
    } else if v < -LIMIT {
        (-LIMIT) as i64
    } else {
        v as i64
    }
}

/// The quotient of `a` by a positive `b`, rounded toward zero.
pub open spec fn trunc_div(a: int, b: int) -> int
    recommends
        b > 0,
{
    if a >= 0 {
        a / b
    } else {
        -((-a) / b)
    }
}

/// The stored sum of two quantities.
pub open spec fn sum(a: i64, b: i64) -> i64 {
    clamp(a + b)
}

/// The stored difference of two quantities.
pub open spec fn difference(a: i64, b: i64) -> i64 {
    clamp(a - b)
}

/// The stored product of two quantities.
pub open spec fn product(a: i64, b: i64) -> i64 {
    clamp(trunc_div(a * b, UNIT as int))
}

/// The stored quotient of two quantities, for a divisor other than zero.
pub open spec fn ratio(a: i64, b: i64) -> i64
    recommends
        b != 0,
{
    if b > 0 {
        clamp(trunc_div(a * UNIT, b as int))
    } else {
        clamp(-trunc_div(a * UNIT, -b))
    }
}

/// Rounding toward zero commutes with negation.
pub proof fn lemma_trunc_div_odd(a: int, b: int)
    requires
        b > 0,
    ensures
        trunc_div(-a, b) == -trunc_div(a, b),
{
}

/// Rounding toward zero never grows a magnitude, and keeps the sign.
pub proof fn lemma_trunc_div_bounds(a: int, b: int)
    requires
        b > 0,
    ensures
        a >= 0 ==> 0 <= trunc_div(a, b) <= a,
        a <= 0 ==> a <= trunc_div(a, b) <= 0,
{
    if a >= 0 {
        assert(0 <= a / b <= a) by (nonlinear_arith)
            requires
                a >= 0,
                b > 0,
        ;
    } else {
        let m = -a;
        assert(0 <= m / b <= m) by (nonlinear_arith)
            requires
                m >= 0,
                b > 0,
        ;
    }
}

/// Dividing an exact multiple gives the other factor back.
pub proof fn lemma_trunc_div_multiple(k: int, n: int)
    requires
        n > 0,
    ensures
        trunc_div(n * k, n) == k,
{
    if k >= 0 {
        assert(n * k >= 0 && (n * k) / n == k) by (nonlinear_arith)
            requires
                n > 0,
                k >= 0,
        ;
    } else {
        let m = -k;
        assert(n * k < 0 && -(n * k) == n * m && (n * m) / n == m) by (nonlinear_arith)
            requires
                n > 0,
                m > 0,
                m == -k,
        ;
    }
}

/// A multiple of the unit, written out.
pub proof fn lemma_unit_multiple(a: int)
    ensures
        a * UNIT == a * 1_000_000,
{
    assert(a * UNIT == a * 1_000_000) by (nonlinear_arith)
        requires
            UNIT == 1_000_000,
    ;
}

/// Brings a wide intermediate result back into the stored range.
pub fn saturate(w: i128) -> (r: i64)
    ensures
        r == clamp(w as int),
{
    if w > LIMIT as i128 {
        LIMIT
    } else if w < -(LIMIT as i128) {
        -LIMIT
    } else {
        w as i64
    }
}

/// The quotient of `w` by a positive `n`, rounded toward zero.
pub fn quotient(w: i128, n: i128) -> (q: i128)
    requires
        n > 0,
    ensures
        q == trunc_div(w as int, n as int),
{
    w / n
}

/// Adds two quantities.
pub fn plus(a: i64, b: i64) -> (r: i64)
    ensures
        r == sum(a, b),
{
    saturate(a as i128 + b as i128)
}

/// Subtracts `b` from `a`.
pub fn minus(a: i64, b: i64) -> (r: i64)
    ensures
        r == difference(a, b),
{
    saturate(a as i128 - b as i128)
}

/// Multiplies two quantities.
pub fn times(a: i64, b: i64) -> (r: i64)
    ensures
        r == product(a, b),
{
    assert(-0x4000_0000_0000_0000_0000_0000_0000_0000 <= a * b
        <= 0x4000_0000_0000_0000_0000_0000_0000_0000) by (nonlinear_arith)
        requires
            -0x8000_0000_0000_0000 <= a <= 0x7fff_ffff_ffff_ffff,
            -0x8000_0000_0000_0000 <= b <= 0x7fff_ffff_ffff_ffff,
    ;
    let wide: i128 = a as i128 * b as i128;
    saturate(quotient(wide, UNIT as i128))
}

/// Divides `a` by `b`.
pub fn over(a: i64, b: i64) -> (r: i64)
    requires
        b != 0,
    ensures
        r == ratio(a, b),
{
    let wide: i128 = a as i128 * 1_000_000;
    if b > 0 {
        let q = quotient(wide, b as i128);
        proof {
            lemma_unit_multiple(a as int);
        }
        saturate(q)
    } else {
        let divisor: i128 = -(b as i128);
        let q = quotient(wide, divisor);
        proof {
            lemma_trunc_div_bounds(wide as int, divisor as int);
        }
        let turned: i128 = -q;
        proof {
            lemma_unit_multiple(a as int);
        }
        saturate(turned)
    }
}

} // verus!

