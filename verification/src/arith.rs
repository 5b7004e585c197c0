//! Two's-complement 64-bit arithmetic used by both the expression
//! evaluator and the instruction semantics: addition, subtraction and
//! multiplication wrap, and division truncates toward zero.

use vstd::prelude::*;

verus! {

/// 64-bit wrapping addition.
pub open spec fn add64(a: i64, b: i64) -> i64 {
    vstd::wrapping::i64_specs::wrapping_add(a, b)
}

/// 64-bit wrapping subtraction.
pub open spec fn sub64(a: i64, b: i64) -> i64 {
    vstd::wrapping::i64_specs::wrapping_sub(a, b)
}

/// 64-bit wrapping multiplication.
pub open spec fn mul64(a: i64, b: i64) -> i64 {
    vstd::wrapping::i64_specs::wrapping_mul(a, b)
}

/// 64-bit division truncating toward zero. The one quotient that does not
/// fit in 64 bits, `i64::MIN / -1`, wraps back to `i64::MIN`.
pub open spec fn div64(a: i64, b: i64) -> i64
    recommends
        b != 0,
{
    if a == i64::MIN && b == -1 {
        i64::MIN
    } else {
        let x = a as int;
        let d = b as int;
        let q = if x == 0 {
            0
        } else if x > 0 && d > 0 {
            x / d
        } else if x < 0 && d < 0 {
            (x * -1) / (d * -1)
        } else if x < 0 {
            ((x * -1) / d) * -1
        } else {
            (x / (d * -1)) * -1
        };
        q as i64
    }
}

/// Executable wrapping addition, proved to match the model.
pub fn add64_exec(a: i64, b: i64) -> (r: i64)
    ensures
        r == add64(a, b),
{
    a.wrapping_add(b)
}

/// Executable wrapping subtraction, proved to match the model.
pub fn sub64_exec(a: i64, b: i64) -> (r: i64)
    ensures
        r == sub64(a, b),
{
    a.wrapping_sub(b)
}

/// Executable wrapping multiplication, proved to match the model.
pub fn mul64_exec(a: i64, b: i64) -> (r: i64)
    ensures
        r == mul64(a, b),
{
    a.wrapping_mul(b)
}

/// Executable truncating division, proved to match the model. The caller
/// rules out a zero divisor.
pub fn div64_exec(a: i64, b: i64) -> (r: i64)
    requires
        b != 0,
    ensures
        r == div64(a, b),
{
    if a == i64::MIN && b == -1 {
        i64::MIN
    } else {
        proof {
            lemma_trunc_div_fits(a, b);
        }
        match a.checked_div(b) {
            Some(q) => q,
            None => vstd::pervasive::unreached(),
        }
    }
}

/// For a nonzero divisor, and leaving aside the one wrapping case, the
/// truncated quotient of two 64-bit values fits in 64 bits.
proof fn lemma_trunc_div_fits(a: i64, b: i64)
    requires
        b != 0,
        !(a == i64::MIN && b == -1),
    ensures
        i64::MIN <= div64(a, b) <= i64::MAX,
        a.checked_div(b) == Some(div64(a, b)),
{
    let x = a as int;
    let d = b as int;
    if x > 0 && d > 0 {
        lemma_div_bound(x, d);
    } else if x < 0 && d < 0 {
        lemma_div_bound(x * -1, d * -1);
        if d * -1 >= 2 {
            lemma_half_bound(x * -1, d * -1);
        }
    } else if x < 0 && d > 0 {
        lemma_div_bound(x * -1, d);
    } else if x > 0 && d < 0 {
        lemma_div_bound(x, d * -1);
    }
}

/// For nonnegative `x` and positive `d`, the quotient lies between 0 and `x`.
proof fn lemma_div_bound(x: int, d: int)
    requires
        x >= 0,
        d >= 1,
    ensures
        0 <= x / d <= x,
{
    assert(0 <= x / d <= x) by (nonlinear_arith)
        requires
            x >= 0,
            d >= 1,
    ;
}

/// Dividing by at least two at most halves a nonnegative value.
proof fn lemma_half_bound(x: int, d: int)
    requires
        x >= 0,
        d >= 2,
    ensures
        x / d <= x / 2,
{
    assert(x / d <= x / 2) by (nonlinear_arith)
        requires
            x >= 0,
            d >= 2,
    ;
}

/// Adding and then subtracting the same value is the identity whenever the
/// intermediate sum is representable in 64 bits.
pub proof fn lemma_add_sub_cancel(a: i64, b: i64)
    requires
        i64::MIN <= a + b <= i64::MAX,
    ensures
        sub64(add64(a, b), b) == a,
{
}

/// One is a right identity of 64-bit multiplication.
pub proof fn lemma_mul_one(a: i64)
    ensures
        mul64(a, 1) == a,
{
    assert(a as int % 0x1_0000_0000_0000_0000 == a as int || a as int % 0x1_0000_0000_0000_0000
        == a as int + 0x1_0000_0000_0000_0000) by (nonlinear_arith)
        requires
            i64::MIN <= a as int <= i64::MAX,
    ;
}

/// One is a right identity of truncating division.
pub proof fn lemma_div_one(a: i64)
    ensures
        div64(a, 1) == a,
{
    let x = a as int;
    if x > 0 {
        assert(x / 1 == x) by (nonlinear_arith);
    } else if x < 0 {
        assert((x * -1) / 1 == x * -1) by (nonlinear_arith);
    }
}

} // verus!
