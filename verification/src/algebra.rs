//! Small facts of algebra that the solver needs to be told.

use vstd::prelude::*;

verus! {

/// Multiplying by a number that is not negative keeps the order.
pub proof fn lemma_times_keeps_order(a: real, b: real, c: real)
    requires
        a <= b,
        0real <= c,
    ensures
        a * c <= b * c,
{
    assert(a * c <= b * c) by (nonlinear_arith)
        requires
            a <= b,
            0real <= c,
    ;
}

/// Multiplying by a positive number keeps the strict order.
pub proof fn lemma_times_keeps_strict_order(a: real, b: real, c: real)
    requires
        a < b,
        0real < c,
    ensures
        a * c < b * c,
{
    assert(a * c < b * c) by (nonlinear_arith)
        requires
            a < b,
            0real < c,
    ;
}

/// A common positive factor can be left out.
pub proof fn lemma_cancel(a: real, b: real, c: real)
    requires
        0real < c,
        a * c == b * c,
    ensures
        a == b,
{
    if a < b {
        lemma_times_keeps_strict_order(a, b, c);
    }
    if b < a {
        lemma_times_keeps_strict_order(b, a, c);
    }
}

/// A quotient times its denominator is its numerator.
pub proof fn lemma_quotient(a: real, b: real)
    requires
        0real < b,
    ensures
        (a / b) * b == a,
{
    let q = a / b;
    assert(q * b == a) by (nonlinear_arith)
        requires
            q == a / b,
            0real < b,
    ;
}

/// The quotient of positive numbers is positive.
pub proof fn lemma_quotient_is_positive(a: real, b: real)
    requires
        0real < a,
        0real < b,
    ensures
        0real < a / b,
{
    lemma_quotient(a, b);
    let q = a / b;
    if q <= 0real {
        lemma_times_keeps_order(q, 0real, b);
        assert(0real * b == 0real);
    }
}

/// No square is negative.
pub proof fn lemma_square(a: real)
    ensures
        0real <= a * a,
{
    assert(0real <= a * a) by (nonlinear_arith);
}

/// Factors in any order.
pub proof fn lemma_swap(a: real, b: real)
    ensures
        a * b == b * a,
{
    assert(a * b == b * a) by (nonlinear_arith);
}

/// A product is divided by a factor.
pub proof fn lemma_divide_product(a: real, x: real)
    requires
        0real < a,
    ensures
        (a * x) / a == x,
{
    lemma_quotient(a * x, a);
    lemma_swap(a, x);
    lemma_cancel((a * x) / a, x, a);
}

} // verus!
