//! Quotients of products that do not fit in 128 bits.
//!
//! The pricing formulas divide a product of amounts by a scale. The product
//! may leave 128 bits where the quotient does not. The functions here reach
//! the quotient without ever forming the product.

use vstd::prelude::*;
use vstd::arithmetic::div_mod::{
    lemma_div_denominator,
    lemma_div_is_ordered,
    lemma_fundamental_div_mod,
    lemma_fundamental_div_mod_converse,
    lemma_mod_pos_bound,
};

verus! {

/// Whether `q` and `r` are the quotient and the remainder of `x` by `d`.
pub open spec fn is_div_rem(x: int, d: int, q: int, r: int) -> bool {
    &&& x == q * d + r
    &&& 0 <= r < d
}

/// A quotient and remainder that fit the division are the quotient and the
/// remainder.
pub proof fn lemma_div_rem_unique(x: int, d: int, q: int, r: int)
    requires
        is_div_rem(x, d, q, r),
    ensures
        q == x / d,
        r == x % d,
{
    lemma_fundamental_div_mod_converse(x, d, q, r);
}

/// The sum of two divided numbers, divided: the quotients add up, and so do
/// the remainders, carrying one over where they reach the divisor.
proof fn lemma_div_rem_add(x1: int, q1: int, r1: int, x2: int, q2: int, r2: int, d: int)
    requires
        is_div_rem(x1, d, q1, r1),
        is_div_rem(x2, d, q2, r2),
    ensures
        r1 + r2 < d ==> is_div_rem(x1 + x2, d, q1 + q2, r1 + r2),
        r1 + r2 >= d ==> is_div_rem(x1 + x2, d, q1 + q2 + 1, r1 + r2 - d),
{
    assert((q1 + q2) * d == q1 * d + q2 * d) by (nonlinear_arith);
    assert((q1 + q2 + 1) * d == q1 * d + q2 * d + d) by (nonlinear_arith);
}

/// Adds the quotient and remainder of one number to those of another, both
/// by `d`. `None` when the quotient of the sum leaves 128 bits.
fn add_div_rem(q1: u128, r1: u128, q2: u128, r2: u128, d: u128) -> (out: Option<(u128, u128)>)
    requires
        r1 < d,
        r2 < d,
    ensures
        out is Some <==> q1 + q2 + (if r1 + r2 >= d { 1int } else { 0int }) <= u128::MAX,
        out matches Some((q, r)) ==> {
            &&& q == q1 + q2 + (if r1 + r2 >= d { 1int } else { 0int })
            &&& r == (if r1 + r2 >= d { r1 + r2 - d } else { r1 + r2 })
        },
{
    let carry = r1 >= d - r2;
    let r = if carry { r1 - (d - r2) } else { r1 + r2 };
    let q = match q1.checked_add(q2) {
        Some(q) => q,
        None => {
            return None;
        },
    };
    if carry {
        match q.checked_add(1) {
            Some(q) => Some((q, r)),
            None => None,
        }
    } else {
        Some((q, r))
    }
}

/// A quotient that has left 128 bits stays out of them when the number
/// divided grows.
proof fn lemma_quotient_too_large(x: int, y: int, d: int, q: int, r: int)
    requires
        is_div_rem(x, d, q, r),
        x <= y,
        q > u128::MAX,
    ensures
        y / d > u128::MAX,
{
    lemma_div_rem_unique(x, d, q, r);
    lemma_div_is_ordered(x, y, d);
}

/// The quotient and the remainder of `a * b` by `d`. `None` when the quotient
/// does not fit in 128 bits.
///
/// The product is taken apart by the binary digits of `b`: the quotient and
/// remainder of `a`, doubled again and again, are added up for each digit
/// that is set.
pub fn mul_div_rem(a: u128, b: u128, d: u128) -> (out: Option<(u128, u128)>)
    requires
        d > 0,
    ensures
        out is Some <==> a * b / (d as int) <= u128::MAX,
        out matches Some((q, r)) ==> q == a * b / (d as int) && r == a * b % (d as int),
{
    // the quotient and remainder of a * unit, for the digit at hand
    let mut step_q: u128 = a / d;
    let mut step_r: u128 = a % d;
    // the quotient and remainder of a * low, for the digits done
    let mut sum_q: u128 = 0;
    let mut sum_r: u128 = 0;
    let mut rest: u128 = b;
    let ghost mut unit: int = 1;
    let ghost mut low: int = 0;
    proof {
        assert(is_div_rem(a * unit, d as int, step_q as int, step_r as int)) by {
            assert(a * 1 == a) by (nonlinear_arith);
            assert(a == (a / d) * d + a % d) by (nonlinear_arith)
                requires
                    d > 0,
            ;
        }
        assert(a * low == 0) by (nonlinear_arith)
            requires
                low == 0,
        ;
        assert(rest * unit == rest) by (nonlinear_arith)
            requires
                unit == 1,
        ;
    }
    while rest > 0
        invariant
            d > 0,
            unit >= 1,
            0 <= low,
            b == rest * unit + low,
            is_div_rem(a * unit, d as int, step_q as int, step_r as int),
            is_div_rem(a * low, d as int, sum_q as int, sum_r as int),
        decreases rest,
    {
        let ghost rest_before = rest as int;
        if rest % 2 == 1 {
            proof {
                lemma_div_rem_add(
                    a * low,
                    sum_q as int,
                    sum_r as int,
                    a * unit,
                    step_q as int,
                    step_r as int,
                    d as int,
                );
                assert(a * low + a * unit == a * (low + unit)) by (nonlinear_arith);
                assert(a * (low + unit) <= a * b) by (nonlinear_arith)
                    requires
                        b == rest * unit + low,
                        rest >= 1,
                        unit >= 1,
                        a >= 0,
                ;
            }
            match add_div_rem(sum_q, sum_r, step_q, step_r, d) {
                Some((q, r)) => {
                    sum_q = q;
                    sum_r = r;
                },
                None => {
                    proof {
                        let carry = if sum_r + step_r >= d { 1int } else { 0int };
                        lemma_quotient_too_large(
                            a * (low + unit),
                            a * b,
                            d as int,
                            sum_q + step_q + carry,
                            sum_r + step_r - carry * d,
                        );
                    }
                    return None;
                },
            }
            proof {
                low = low + unit;
            }
        }
        rest = rest / 2;
        proof {
            assert(b == rest * (2 * unit) + low) by (nonlinear_arith)
                requires
                    b == rest_before * unit + (if rest_before % 2 == 1 {
                        low - unit
                    } else {
                        low
                    }),
                    rest == rest_before / 2,
                    rest_before >= 0,
            ;
        }
        if rest > 0 {
            proof {
                lemma_div_rem_add(
                    a * unit,
                    step_q as int,
                    step_r as int,
                    a * unit,
                    step_q as int,
                    step_r as int,
                    d as int,
                );
                assert(a * unit + a * unit == a * (2 * unit)) by (nonlinear_arith);
                assert(a * (2 * unit) <= a * b) by (nonlinear_arith)
                    requires
                        b == rest * (2 * unit) + low,
                        rest >= 1,
                        unit >= 1,
                        low >= 0,
                        a >= 0,
                ;
            }
            match add_div_rem(step_q, step_r, step_q, step_r, d) {
                Some((q, r)) => {
                    step_q = q;
                    step_r = r;
                },
                None => {
                    proof {
                        let carry = if step_r + step_r >= d { 1int } else { 0int };
                        lemma_quotient_too_large(
                            a * (2 * unit),
                            a * b,
                            d as int,
                            step_q + step_q + carry,
                            step_r + step_r - carry * d,
                        );
                    }
                    return None;
                },
            }
            proof {
                unit = 2 * unit;
            }
        } else {
            proof {
                assert(rest * (2 * unit) == 0) by (nonlinear_arith)
                    requires
                        rest == 0,
                ;
                assert(rest * unit == 0) by (nonlinear_arith)
                    requires
                        rest == 0,
                ;
            }
        }
    }
    proof {
        assert(rest * unit == 0) by (nonlinear_arith)
            requires
                rest == 0,
        ;
        lemma_div_rem_unique(a * b, d as int, sum_q as int, sum_r as int);
    }
    Some((sum_q, sum_r))
}

/// The quotient and the remainder of a number that is not negative, by a
/// positive divisor, are its quotient and remainder, and are not negative.
proof fn lemma_div_rem_of(x: int, d: int)
    requires
        0 <= x,
        0 < d,
    ensures
        is_div_rem(x, d, x / d, x % d),
        0 <= x / d,
{
    lemma_fundamental_div_mod(x, d);
    lemma_mod_pos_bound(x, d);
    assert(d * (x / d) == (x / d) * d) by (nonlinear_arith);
    assert(0 <= x / d) by (nonlinear_arith)
        requires
            0 <= x,
            0 < d,
    ;
}

/// `a * b * c / d`, rounded down. `None` when it does not fit in 128 bits.
pub fn mul_mul_div(a: u128, b: u128, c: u128, d: u128) -> (out: Option<u128>)
    requires
        d > 0,
    ensures
        out is Some <==> a * b * c / (d as int) <= u128::MAX,
        out matches Some(v) ==> v == a * b * c / (d as int),
{
    if c == 0 {
        assert(a * b * c == 0) by (nonlinear_arith)
            requires
                c == 0,
        ;
        return Some(0);
    }
    let ghost whole = a * b * c;
    let ghost first_q = a * b / (d as int);
    let ghost first_r = a * b % (d as int);
    let ghost second_q = first_r * c / (d as int);
    let ghost second_r = first_r * c % (d as int);
    proof {
        assert(0 <= a * b) by (nonlinear_arith);
        lemma_div_rem_of(a * b, d as int);
        assert(0 <= first_r * c) by (nonlinear_arith)
            requires
                0 <= first_r,
                0 <= c,
        ;
        lemma_div_rem_of(first_r * c, d as int);
        assert(whole == (first_q * c + second_q) * d + second_r) by (nonlinear_arith)
            requires
                whole == a * b * c,
                a * b == first_q * d + first_r,
                first_r * c == second_q * d + second_r,
        ;
        lemma_div_rem_unique(whole, d as int, first_q * c + second_q, second_r);
        assert(first_q <= first_q * c) by (nonlinear_arith)
            requires
                0 <= first_q,
                1 <= c,
        ;
    }
    let (q1, r1) = match mul_div_rem(a, b, d) {
        Some(pair) => pair,
        None => {
            return None;
        },
    };
    let scaled = match q1.checked_mul(c) {
        Some(t) => t,
        None => {
            return None;
        },
    };
    let (q2, _) = match mul_div_rem(r1, c, d) {
        Some(pair) => pair,
        None => {
            return None;
        },
    };
    scaled.checked_add(q2)
}

/// `a * b / (d1 * d2)`, rounded down. `None` when it does not fit in 128
/// bits.
pub fn mul_div_div(a: u128, b: u128, d1: u128, d2: u128) -> (out: Option<u128>)
    requires
        d1 > 0,
        d2 > 0,
    ensures
        out is Some <==> a * b / (d1 * d2) <= u128::MAX,
        out matches Some(v) ==> v == a * b / (d1 * d2),
{
    let qa = a / d1;
    let ra = a % d1;
    let qb = b / d2;
    let rb = b % d2;
    // a * b / d1 is qa * b + inner, and qa * b is qa * qb * d2 + qa * rb
    let ghost inner = ra * b / (d1 as int);
    let ghost inner_r = ra * b % (d1 as int);
    let ghost cross_q = qa * rb / (d2 as int);
    let ghost cross_r = qa * rb % (d2 as int);
    let ghost inner_q = inner / (d2 as int);
    let ghost inner_rr = inner % (d2 as int);
    let ghost carry = if cross_r + inner_rr >= d2 { 1int } else { 0int };
    let ghost value = qa * qb + cross_q + inner_q + carry;
    proof {
        assert(a == qa * d1 + ra && b == qb * d2 + rb) by (nonlinear_arith)
            requires
                qa == a / d1,
                ra == a % d1,
                qb == b / d2,
                rb == b % d2,
                d1 > 0,
                d2 > 0,
        ;
        assert(0 <= ra * b && 0 <= qa * rb && 0 <= qa * qb && 0 <= a * b) by (nonlinear_arith);
        lemma_div_rem_of(ra * b, d1 as int);
        lemma_div_rem_of(qa * rb, d2 as int);
        lemma_div_rem_of(inner, d2 as int);
        let once = qa * b + inner;
        assert(a * b == once * d1 + inner_r) by (nonlinear_arith)
            requires
                a == qa * d1 + ra,
                ra * b == inner * d1 + inner_r,
                once == qa * b + inner,
        ;
        lemma_div_rem_unique(a * b, d1 as int, once, inner_r);
        assert(once == value * d2 + (cross_r + inner_rr - carry * d2)) by (nonlinear_arith)
            requires
                once == qa * b + inner,
                b == qb * d2 + rb,
                qa * rb == cross_q * d2 + cross_r,
                inner == inner_q * d2 + inner_rr,
                value == qa * qb + cross_q + inner_q + carry,
        ;
        lemma_div_rem_unique(once, d2 as int, value, cross_r + inner_rr - carry * d2);
        lemma_div_denominator(a * b, d1 as int, d2 as int);
        assert(value == a * b / (d1 * d2));
    }
    proof {
        // ra is below d1, so ra * b / d1 is no more than b, and fits
        assert(inner <= b) by (nonlinear_arith)
            requires
                ra * b == inner * d1 + inner_r,
                0 <= inner_r,
                0 <= ra < d1,
                0 <= b,
                0 <= inner,
        ;
    }
    let (inner_x, _) = match mul_div_rem(ra, b, d1) {
        Some(pair) => pair,
        None => {
            return None;
        },
    };
    let top = match qa.checked_mul(qb) {
        Some(t) => t,
        None => {
            return None;
        },
    };
    let (q3, r3) = match mul_div_rem(qa, rb, d2) {
        Some(pair) => pair,
        None => {
            return None;
        },
    };
    let (tail, _) = match add_div_rem(q3, r3, inner_x / d2, inner_x % d2, d2) {
        Some(pair) => pair,
        None => {
            return None;
        },
    };
    top.checked_add(tail)
}

} // verus!
