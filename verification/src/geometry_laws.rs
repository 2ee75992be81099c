//! What the displacement makes of the engine, by the numbers that come out.

use vstd::prelude::*;

use crate::engine::{EngineView, blank_engine};
use crate::number::Real;
use crate::premises::Rounding;

verus! {

/// A product lies between the products of the bounds of its factors.
pub proof fn lemma_product_is_bounded(
    a: real,
    a_low: real,
    a_high: real,
    b: real,
    b_low: real,
    b_high: real,
)
    requires
        0real <= a_low <= a <= a_high,
        0real <= b_low <= b <= b_high,
    ensures
        a_low * b_low <= a * b <= a_high * b_high,
{
    assert(a_low * b_low <= a * b_low) by (nonlinear_arith)
        requires
            a_low <= a,
            0real <= b_low,
    ;
    assert(a * b_low <= a * b) by (nonlinear_arith)
        requires
            b_low <= b,
            0real <= a,
    ;
    assert(a * b <= a * b_high) by (nonlinear_arith)
        requires
            b <= b_high,
            0real <= a,
    ;
    assert(a * b_high <= a_high * b_high) by (nonlinear_arith)
        requires
            a <= a_high,
            0real <= b_high,
    ;
}

/// What can be said of two multiples of a positive number can be said of the factors.
pub proof fn lemma_factors_are_ordered(a: real, b: real, c: real)
    requires
        0real < c,
        a * c <= b * c,
    ensures
        a <= b,
{
    if b < a {
        assert(b * c < a * c) by (nonlinear_arith)
            requires
                0real < c,
                b < a,
        ;
    }
}

/// The product of two numbers that are near to two others is near to their product.
pub proof fn lemma_products_are_near<R: Real>(
    rounding: Rounding<R>,
    i: real,
    a: real,
    a1: real,
    j: real,
    b: real,
    b1: real,
)
    requires
        0real < rounding.unit <= 1real / 1000000real,
        0real <= i <= 100real,
        0real <= j <= 100real,
        0real <= a,
        0real <= b,
        rounding.near(i, a, a1),
        rounding.near(j, b, b1),
    ensures
        rounding.near(i + j + 1real, a * b, a1 * b1),
{
    let u = rounding.unit;
    let da = a1 - a;
    let db = b1 - b;
    let ma = i * (u * a);
    let mb = j * (u * b);
    let e = u * (a * b);
    assert(a1 * b1 - a * b == a * db + b * da + da * db) by (nonlinear_arith)
        requires
            da == a1 - a,
            db == b1 - b,
    ;
    assert(-(j * e) <= a * db <= j * e) by (nonlinear_arith)
        requires
            0real <= a,
            -mb <= db <= mb,
            mb == j * (u * b),
            e == u * (a * b),
    {
        assert(a * mb == j * e);
    }
    assert(-(i * e) <= b * da <= i * e) by (nonlinear_arith)
        requires
            0real <= b,
            -ma <= da <= ma,
            ma == i * (u * a),
            e == u * (a * b),
    {
        assert(b * ma == i * e);
    }
    assert(0real <= e) by (nonlinear_arith)
        requires
            e == u * (a * b),
            0real < u,
            0real <= a,
            0real <= b,
    ;
    assert(ma * mb <= e) by (nonlinear_arith)
        requires
            ma == i * (u * a),
            mb == j * (u * b),
            e == u * (a * b),
            0real <= e,
            0real < u <= 1real / 1000000real,
            0real <= i <= 100real,
            0real <= j <= 100real,
    {
        assert(i * j <= 10000real);
        assert(0real <= i * j);
        assert((i * j) * u <= 1real);
        assert(ma * mb == ((i * j) * u) * e);
    }
    assert(-(ma * mb) <= da * db <= ma * mb) by (nonlinear_arith)
        requires
            -ma <= da <= ma,
            -mb <= db <= mb,
    ;
    assert((i + j + 1real) * e == i * e + j * e + e) by (nonlinear_arith);
}

/// What is near to a number that is near to another is near to that one.
pub proof fn lemma_nearness_adds_up<R: Real>(
    rounding: Rounding<R>,
    i: real,
    x: real,
    y: real,
    j: real,
    z: real,
)
    requires
        0real < rounding.unit <= 1real / 1000000real,
        0real <= i <= 100real,
        0real <= j <= 100real,
        0real <= x,
        rounding.near(i, x, y),
        rounding.near(j, y, z),
    ensures
        rounding.near(i + j + 1real, x, z),
{
    let u = rounding.unit;
    let e = u * x;
    let f = u * y;
    assert(0real <= e) by (nonlinear_arith)
        requires
            e == u * x,
            0real < u,
            0real <= x,
    ;
    assert(j * f <= j * e + e) by (nonlinear_arith)
        requires
            e == u * x,
            f == u * y,
            0real <= e,
            y - x <= i * e,
            0real < u <= 1real / 1000000real,
            0real <= i <= 100real,
            0real <= j <= 100real,
    {
        assert(f <= e + u * (i * e));
        assert(j * f <= j * e + j * (u * (i * e)));
        assert(0real <= i * j <= 10000real);
        assert((i * j) * u <= 1real);
        assert(j * (u * (i * e)) == ((i * j) * u) * e);
    }
    assert((i + j + 1real) * e == i * e + j * e + e) by (nonlinear_arith);
}

/// Two numbers that are near to a third are near to each other.
proof fn lemma_nearness_is_shared<R: Real>(
    rounding: Rounding<R>,
    i: real,
    x: real,
    y: real,
    j: real,
    z: real,
)
    requires
        0real < rounding.unit <= 1real / 1000000real,
        0real <= i <= 100real,
        0real <= j <= 100real,
        0real <= x,
        rounding.near(i, x, y),
        rounding.near(j, x, z),
    ensures
        rounding.near(i + j + 1real, y, z),
{
    let u = rounding.unit;
    let e = u * x;
    let f = u * y;
    let k = i + j;
    assert(k * e <= k * f + f) by (nonlinear_arith)
        requires
            e == u * x,
            f == u * y,
            0real <= x,
            x - y <= i * e,
            0real < u <= 1real / 1000000real,
            0real <= i <= 100real,
            0real <= k <= 200real,
    {
        assert(0real <= e);
        assert(i * e <= 100real * e);
        assert(i * e <= x / 10000real);
        assert(x <= 2real * y);
        assert(e <= 2real * f);
        assert(e <= f + u * (i * e));
        assert(k * e <= k * f + k * (u * (i * e)));
        assert(0real <= i * k <= 20000real);
        assert((i * k) * u <= 1real / 2real);
        assert(k * (u * (i * e)) == ((i * k) * u) * e);
    }
    assert((k + 1real) * f == k * f + f) by (nonlinear_arith);
    assert(k * e == i * e + j * e) by (nonlinear_arith)
        requires
            k == i + j,
    ;
}

/// A near number is of nearly the same size.
pub proof fn lemma_near_is_close<R: Real>(rounding: Rounding<R>, i: real, x: real, y: real)
    requires
        0real < rounding.unit <= 1real / 1000000real,
        0real <= i <= 100real,
        0real <= x,
        rounding.near(i, x, y),
    ensures
        x - x / 10000real <= y <= x + x / 10000real,
{
    let u = rounding.unit;
    assert(i * (u * x) <= x / 10000real) by (nonlinear_arith)
        requires
            0real < u <= 1real / 1000000real,
            0real <= i <= 100real,
            0real <= x,
    {
        assert(u * x <= x / 1000000real);
        assert(0real <= u * x);
        assert(i * (u * x) <= 100real * (u * x));
    }
}

/// A larger count of units allows for more.
proof fn lemma_near_is_monotonic<R: Real>(rounding: Rounding<R>, i: real, j: real, x: real, y: real)
    requires
        0real < rounding.unit,
        i <= j,
        0real <= x,
        rounding.near(i, x, y),
    ensures
        rounding.near(j, x, y),
{
    let u = rounding.unit;
    assert(i * (u * x) <= j * (u * x)) by (nonlinear_arith)
        requires
            0real < u,
            0real <= x,
            i <= j,
    {
        assert(0real <= u * x);
    }
}

/// The computed product of two numbers that are near to `x` and `y` is near to `x * y`.
proof fn lemma_product_is_near<R: Real>(
    rounding: Rounding<R>,
    i: real,
    x: real,
    a: R,
    j: real,
    y: real,
    b: R,
)
    requires
        rounding.kept(),
        0real <= i <= 40real,
        0real <= j <= 40real,
        0real <= x,
        0real <= y,
        1real / 100000000real <= x * y <= 500real,
        rounding.is_finite(a),
        rounding.is_finite(b),
        rounding.near(i, x, rounding.worth(a)),
        rounding.near(j, y, rounding.worth(b)),
    ensures
        rounding.is_finite(a.spec_mul(b)),
        rounding.near(i + j + 3real, x * y, rounding.worth(a.spec_mul(b))),
{
    let exact = rounding.worth(a) * rounding.worth(b);
    lemma_products_are_near(rounding, i, x, rounding.worth(a), j, y, rounding.worth(b));
    lemma_near_is_close(rounding, i + j + 1real, x * y, exact);
    assert(1real / 1000000000real <= exact);
    assert(exact <= 1000real);
    assert(rounding.in_range(exact));
    assert(rounding.rounds(exact, a.spec_mul(b)));
    assert(rounding.near(1real, exact, rounding.worth(a.spec_mul(b))));
    lemma_nearness_adds_up(
        rounding,
        i + j + 1real,
        x * y,
        exact,
        1real,
        rounding.worth(a.spec_mul(b)),
    );
}

/// A multiple of a number that is near to `x` is near to the same multiple of `x`.
pub proof fn lemma_multiples_are_near<R: Real>(
    rounding: Rounding<R>,
    i: real,
    x: real,
    y: real,
    c: real,
)
    requires
        0real <= c,
        rounding.near(i, x, y),
    ensures
        rounding.near(i, c * x, c * y),
{
    let u = rounding.unit;
    let most = i * (u * x);
    let gap = y - x;
    assert(c * gap == c * y - c * x) by (nonlinear_arith)
        requires
            gap == y - x,
    ;
    assert(i * (u * (c * x)) == c * most) by (nonlinear_arith)
        requires
            most == i * (u * x),
    ;
    assert(c * -most == -(c * most)) by (nonlinear_arith);
    assert(c * -most <= c * gap) by (nonlinear_arith)
        requires
            0real <= c,
            -most <= gap,
    ;
    assert(c * gap <= c * most) by (nonlinear_arith)
        requires
            0real <= c,
            gap <= most,
    ;
}

/// The computed quotient of a number that is near to `x` and the whole number `1 / c` is near to
/// `c * x`.
proof fn lemma_quotient_is_near<R: Real>(
    rounding: Rounding<R>,
    i: real,
    x: real,
    a: R,
    b: R,
    c: real,
)
    requires
        rounding.kept(),
        0real <= i <= 40real,
        0real <= x,
        0real < c <= 1real,
        1real / 100000000real <= c * x <= 500real,
        rounding.is_finite(a),
        rounding.is_finite(b),
        rounding.worth(b) > 0real,
        c * rounding.worth(b) == 1real,
        rounding.near(i, x, rounding.worth(a)),
    ensures
        rounding.is_finite(a.spec_euclidean_or_real_div(b)),
        rounding.near(
            i + 2real,
            c * x,
            rounding.worth(a.spec_euclidean_or_real_div(b)),
        ),
{
    let v = rounding.worth(a);
    let k = rounding.worth(b);
    let exact = v / k;
    let r = a.spec_euclidean_or_real_div(b);
    assert(exact * k == v) by (nonlinear_arith)
        requires
            exact == v / k,
            k > 0real,
    ;
    assert(exact * (c * k) == c * (exact * k)) by (nonlinear_arith);
    assert(exact * (c * k) == exact) by (nonlinear_arith)
        requires
            c * k == 1real,
    ;
    assert(exact == c * v);
    lemma_multiples_are_near(rounding, i, x, v, c);
    lemma_near_is_close(rounding, i, c * x, exact);
    assert(rounding.in_range(exact));
    assert(rounding.rounds(exact, r));
    assert(rounding.near(1real, exact, rounding.worth(r)));
    lemma_nearness_adds_up(rounding, i, c * x, exact, 1real, rounding.worth(r));
}

/// The fraction `n / d` is near to itself.
proof fn lemma_fraction_is_near<R: Real>(rounding: Rounding<R>, n: u64, d: u64)
    requires
        rounding.kept(),
        0 < n <= 1000,
        0 < d <= 1000,
        n <= d,
    ensures
        rounding.is_finite(R::fraction(n, d)),
        rounding.near(1real, n as real / d as real, rounding.worth(R::fraction(n, d))),
{
    let x = n as real / d as real;
    let m = n as real;
    let k = d as real;
    assert(x * k == m) by (nonlinear_arith)
        requires
            x == m / k,
            k > 0real,
    ;
    assert((1real / 1000real) * k <= x * k);
    assert(x * k <= 1real * k);
    lemma_factors_are_ordered(1real / 1000real, x, k);
    lemma_factors_are_ordered(x, 1real, k);
    assert(rounding.in_range(x));
    assert(rounding.rounds(x, R::fraction(n, d)));
}

/// A small whole number is itself.
pub proof fn lemma_whole_number_is_exact<R: Real>(rounding: Rounding<R>, n: u64)
    requires
        rounding.kept(),
        0 < n <= 1000,
    ensures
        rounding.is_finite(R::fraction(n, 1)),
        rounding.worth(R::fraction(n, 1)) == n as real,
{
    assert(n as real / 1real == n as real);
    assert(rounding.in_range(n as real / 1u64 as real));
    assert(rounding.rounds(n as real / 1u64 as real, R::fraction(n, 1)));
}

/// Whether a displacement is positive and of a moderate size.
pub open spec fn moderate<R: Real>(rounding: Rounding<R>, scale: R) -> bool {
    rounding.is_finite(scale) && 1real / 200real <= rounding.worth(scale) <= 200real
}

/// The cube root of a moderate displacement is moderate.
proof fn lemma_root_is_moderate<R: Real>(rounding: Rounding<R>, scale: R)
    requires
        rounding.kept(),
        rounding.precise_powers(),
        moderate(rounding, scale),
    ensures
        rounding.is_finite(scale.cube_root()),
        1real / 10real <= rounding.worth(scale.cube_root()) <= 6real,
{
    let s = rounding.worth(scale.cube_root());
    let w = rounding.worth(scale);
    assert(rounding.near(8real, w, s * s * s));
    lemma_near_is_close(rounding, 8real, w, s * s * s);
    if s < 1real / 10real {
        lemma_product_is_bounded(s, 0real, 1real / 10real, s, 0real, 1real / 10real);
        lemma_product_is_bounded(s * s, 0real, 1real / 100real, s, 0real, 1real / 10real);
    }
    if s > 6real {
        lemma_product_is_bounded(s, 6real, s, s, 6real, s);
        lemma_product_is_bounded(s * s, 36real, s * s, s, 6real, s);
    }
}

/// The area of a piston and the throw of its crank, as the root of the displacement gives them.
proof fn lemma_measures_follow_the_root<R: Real>(
    rounding: Rounding<R>,
    engine: EngineView<R>,
    cylinders: usize,
    scale: R,
)
    requires
        rounding.kept(),
        rounding.precise_powers(),
        engine.same_base(blank_engine()),
        moderate(rounding, scale),
    ensures
        ({
            let built = engine.reconfigured(cylinders, scale);
            let s = rounding.worth(scale.cube_root());
            let h = 4real / 100real * s;
            &&& 1real / 10real <= s <= 6real
            &&& rounding.is_finite(built.crank_radius)
            &&& rounding.is_finite(built.rod_length)
            &&& rounding.is_finite(built.piston_area)
            &&& rounding.near(4real, h, rounding.worth(built.crank_radius))
            &&& rounding.near(4real, 13real / 100real * s, rounding.worth(built.rod_length))
            &&& rounding.near(
                25real,
                rounding.worth(R::circle()) * (h * h),
                rounding.worth(built.piston_area),
            )
        }),
{
    lemma_root_is_moderate(rounding, scale);
    let root = scale.cube_root();
    let s = rounding.worth(root);
    assert(rounding.near(0real, s, s));
    lemma_fraction_is_near::<R>(rounding, 4, 100);
    lemma_fraction_is_near::<R>(rounding, 13, 100);
    lemma_fraction_is_near::<R>(rounding, 8, 100);
    lemma_whole_number_is_exact::<R>(rounding, 2);
    lemma_product_is_near(rounding, 1real, 4real / 100real, R::fraction(4, 100), 0real, s, root);
    lemma_product_is_near(rounding, 1real, 13real / 100real, R::fraction(13, 100), 0real, s, root);
    lemma_product_is_near(rounding, 1real, 8real / 100real, R::fraction(8, 100), 0real, s, root);
    let bore = R::fraction(8, 100).spec_mul(root);
    let two = R::fraction(2, 1);
    let half = bore.spec_euclidean_or_real_div(two);
    let d = 8real / 100real * s;
    let h = 4real / 100real * s;
    lemma_quotient_is_near(rounding, 4real, d, bore, two, 1real / 2real);
    assert(1real / 2real * d == h);
    let m = rounding.worth(half);
    lemma_products_are_near(rounding, 6real, h, m, 6real, h, m);
    lemma_product_is_bounded(
        h,
        4real / 1000real,
        24real / 100real,
        h,
        4real / 1000real,
        24real / 100real,
    );
    lemma_near_is_close(rounding, 13real, h * h, m * m);
    assert(rounding.in_range(m * m));
    let square = half.whole_power(2);
    assert(rounding.is_finite(square));
    lemma_nearness_adds_up(rounding, 13real, h * h, m * m, 8real, rounding.worth(square));
    let pi = rounding.worth(R::circle());
    assert(rounding.near(0real, pi, pi));
    lemma_product_is_bounded(
        pi,
        3real,
        4real,
        h * h,
        16real / 1000000real,
        576real / 10000real,
    );
    lemma_product_is_near(rounding, 0real, pi, R::circle(), 22real, h * h, square);
}

/// The clearance is an eighth of the volume that the piston sweeps.
proof fn lemma_clearance_is_near<R: Real>(
    rounding: Rounding<R>,
    engine: EngineView<R>,
    cylinders: usize,
    scale: R,
)
    requires
        rounding.kept(),
        rounding.precise_powers(),
        engine.same_base(blank_engine()),
        moderate(rounding, scale),
    ensures
        ({
            let built = engine.reconfigured(cylinders, scale);
            let swept = rounding.worth(built.piston_area) * (2real * rounding.worth(
                built.crank_radius,
            ));
            &&& 1real / 10000000real <= swept <= 1real
            &&& rounding.is_finite(built.clearance_volume)
            &&& rounding.near(8real, swept / 8real, rounding.worth(built.clearance_volume))
        }),
{
    lemma_measures_follow_the_root(rounding, engine, cylinders, scale);
    let built = engine.reconfigured(cylinders, scale);
    let s = rounding.worth(scale.cube_root());
    let h = 4real / 100real * s;
    let pi = rounding.worth(R::circle());
    let area = rounding.worth(built.piston_area);
    let radius = rounding.worth(built.crank_radius);
    lemma_product_is_bounded(
        h,
        4real / 1000real,
        24real / 100real,
        h,
        4real / 1000real,
        24real / 100real,
    );
    lemma_product_is_bounded(
        pi,
        3real,
        4real,
        h * h,
        16real / 1000000real,
        576real / 10000real,
    );
    lemma_near_is_close(rounding, 25real, pi * (h * h), area);
    lemma_near_is_close(rounding, 4real, h, radius);
    let swept = area * (2real * radius);
    lemma_product_is_bounded(
        area,
        4real / 100000real,
        3real / 10real,
        2real * radius,
        6real / 1000real,
        6real / 10real,
    );
    lemma_whole_number_is_exact::<R>(rounding, 1);
    lemma_whole_number_is_exact::<R>(rounding, 2);
    lemma_whole_number_is_exact::<R>(rounding, 8);
    lemma_whole_number_is_exact::<R>(rounding, 9);
    let two = R::fraction(2, 1);
    let through = two.spec_mul(built.crank_radius);
    assert(rounding.near(0real, 2real, 2real));
    assert(rounding.near(0real, radius, radius));
    lemma_product_is_near(rounding, 0real, 2real, two, 0real, radius, built.crank_radius);
    assert(rounding.near(0real, area, area));
    lemma_product_is_near(
        rounding,
        0real,
        area,
        built.piston_area,
        3real,
        2real * radius,
        through,
    );
    let volume = built.piston_area.spec_mul(through);
    let rest = R::fraction(9, 1).spec_sub(R::fraction(1, 1));
    assert(rounding.uncrossed(8real, rest));
    assert(rounding.is_finite(R::fraction(8, 1)));
    assert(rounding.worth(rest) == 8real);
    lemma_quotient_is_near(rounding, 6real, swept, volume, rest, 1real / 8real);
    assert(1real / 8real * swept == swept / 8real);
}

/// At every displacement the engine keeps its compression ratio: the clearance is positive, and
/// the largest volume of a cylinder is the compression ratio times the smallest, up to a hundred
/// units of rounding. The crank has a throw, and the rod is longer than it.
pub proof fn law_displacement_keeps_the_compression<R: Real>(
    rounding: Rounding<R>,
    engine: EngineView<R>,
    cylinders: usize,
    scale: R,
)
    requires
        rounding.kept(),
        rounding.precise_powers(),
        engine.same_base(blank_engine()),
        moderate(rounding, scale),
    ensures
        ({
            let built = engine.reconfigured(cylinders, scale);
            let clearance = rounding.worth(built.clearance_volume);
            let swept = rounding.worth(built.piston_area) * (2real * rounding.worth(
                built.crank_radius,
            ));
            let ratio = (clearance + swept) / clearance;
            let error = ratio - rounding.worth(built.compression_ratio);
            &&& 0real < clearance
            &&& rounding.worth(built.compression_ratio) == 9real
            &&& -(100real * rounding.unit) <= error <= 100real * rounding.unit
            &&& 0real < rounding.worth(built.crank_radius) < rounding.worth(built.rod_length)
        }),
{
    lemma_measures_follow_the_root(rounding, engine, cylinders, scale);
    lemma_clearance_is_near(rounding, engine, cylinders, scale);
    lemma_whole_number_is_exact::<R>(rounding, 9);
    let u = rounding.unit;
    let built = engine.reconfigured(cylinders, scale);
    let s = rounding.worth(scale.cube_root());
    lemma_near_is_close(rounding, 4real, 4real / 100real * s, rounding.worth(built.crank_radius));
    lemma_near_is_close(rounding, 4real, 13real / 100real * s, rounding.worth(built.rod_length));
    let clearance = rounding.worth(built.clearance_volume);
    let swept = rounding.worth(built.piston_area) * (2real * rounding.worth(built.crank_radius));
    let part = swept / 8real;
    lemma_near_is_close(rounding, 8real, part, clearance);
    let ratio = (clearance + swept) / clearance;
    let error = ratio - 9real;
    assert(ratio * clearance == clearance + swept) by (nonlinear_arith)
        requires
            ratio == (clearance + swept) / clearance,
            0real < clearance,
    ;
    assert(error * clearance == ratio * clearance - 9real * clearance) by (nonlinear_arith)
        requires
            error == ratio - 9real,
    ;
    let more = clearance + clearance / 10real;
    assert(u * part <= u * more) by (nonlinear_arith)
        requires
            0real < u,
            part <= more,
    ;
    assert(u * more == u * clearance + u * clearance / 10real) by (nonlinear_arith)
        requires
            more == clearance + clearance / 10real,
    ;
    assert(0real < u * clearance) by (nonlinear_arith)
        requires
            0real < u,
            0real < clearance,
    ;
    assert((100real * u) * clearance == 100real * (u * clearance)) by (nonlinear_arith);
    assert((-(100real * u)) * clearance == -(100real * (u * clearance))) by (nonlinear_arith);
    lemma_factors_are_ordered(-(100real * u), error, clearance);
    lemma_factors_are_ordered(error, 100real * u, clearance);
}

/// The volume that goes with the displacement one, but for a factor: the circle of the bore times
/// the throw of the crank.
pub open spec fn unit_volume<R: Real>(rounding: Rounding<R>) -> real {
    rounding.worth(R::circle()) * (64real / 1000000real)
}

/// Area times throw, and the clearance, follow the displacement.
proof fn lemma_volumes_follow_the_displacement<R: Real>(
    rounding: Rounding<R>,
    engine: EngineView<R>,
    cylinders: usize,
    scale: R,
)
    requires
        rounding.kept(),
        rounding.precise_powers(),
        engine.same_base(blank_engine()),
        moderate(rounding, scale),
    ensures
        ({
            let built = engine.reconfigured(cylinders, scale);
            let volume = rounding.worth(built.piston_area) * rounding.worth(built.crank_radius);
            let expected = unit_volume(rounding) * rounding.worth(scale);
            &&& rounding.near(40real, expected, volume)
            &&& rounding.near(
                49real,
                expected / 4real,
                rounding.worth(built.clearance_volume),
            )
        }),
{
    lemma_measures_follow_the_root(rounding, engine, cylinders, scale);
    lemma_clearance_is_near(rounding, engine, cylinders, scale);
    let built = engine.reconfigured(cylinders, scale);
    let s = rounding.worth(scale.cube_root());
    let w = rounding.worth(scale);
    let h = 4real / 100real * s;
    let pi = rounding.worth(R::circle());
    let area = rounding.worth(built.piston_area);
    let radius = rounding.worth(built.crank_radius);
    let k = unit_volume(rounding);
    lemma_product_is_bounded(h, 0real, h, h, 0real, h);
    lemma_product_is_bounded(pi, 0real, pi, h * h, 0real, h * h);
    lemma_products_are_near(rounding, 25real, pi * (h * h), area, 4real, h, radius);
    let c = 4real / 100real;
    assert((c * s) * (c * s) == (c * c) * (s * s)) by (nonlinear_arith);
    let cc = c * c;
    let ss = s * s;
    let q = pi * cc;
    assert(pi * (cc * ss) == q * ss) by (nonlinear_arith)
        requires
            q == pi * cc,
    ;
    assert((q * ss) * (c * s) == (q * c) * (ss * s)) by (nonlinear_arith);
    assert(cc == 16real / 10000real);
    assert(q * c == pi * (64real / 1000000real));
    assert(pi * (h * h) * h == k * (s * s * s));
    assert(rounding.near(0real, k, k));
    assert(rounding.near(8real, w, s * s * s));
    lemma_products_are_near(rounding, 0real, k, k, 8real, w, s * s * s);
    lemma_product_is_bounded(k, 0real, k, w, 0real, w);
    let volume = area * radius;
    lemma_nearness_adds_up(rounding, 9real, k * w, k * (s * s * s), 30real, volume);
    lemma_multiples_are_near(rounding, 40real, k * w, volume, 1real / 4real);
    assert(1real / 4real * (k * w) == k * w / 4real);
    assert(1real / 4real * volume == volume / 4real);
    assert(area * (2real * radius) == 2real * volume) by (nonlinear_arith)
        requires
            volume == area * radius,
    ;
    lemma_nearness_adds_up(
        rounding,
        40real,
        k * w / 4real,
        volume / 4real,
        8real,
        rounding.worth(built.clearance_volume),
    );
}

/// Two numbers that follow the displacement at two displacements differ by their factor.
proof fn lemma_followers_scale<R: Real>(
    rounding: Rounding<R>,
    i: real,
    unit_worth: real,
    w: real,
    factor: real,
    w1: real,
    v: real,
    v1: real,
)
    requires
        0real < rounding.unit <= 1real / 1000000real,
        0real <= i <= 50real,
        0real <= unit_worth,
        0real <= w,
        0real <= factor,
        0real <= v,
        rounding.near(1real, factor * w, w1),
        rounding.near(i, unit_worth * w, v),
        rounding.near(i, unit_worth * w1, v1),
    ensures
        rounding.near(200real, factor * v, v1),
{
    let x = unit_worth * (factor * w);
    lemma_product_is_bounded(factor, 0real, factor, w, 0real, w);
    lemma_product_is_bounded(unit_worth, 0real, unit_worth, w, 0real, w);
    lemma_product_is_bounded(factor, 0real, factor, v, 0real, v);
    lemma_product_is_bounded(unit_worth, 0real, unit_worth, factor * w, 0real, factor * w);
    assert(factor * (unit_worth * w) == x) by (nonlinear_arith)
        requires
            x == unit_worth * (factor * w),
    ;
    assert(rounding.near(0real, unit_worth, unit_worth));
    assert(rounding.near(0real, factor, factor));
    lemma_products_are_near(rounding, 0real, unit_worth, unit_worth, 1real, factor * w, w1);
    lemma_nearness_adds_up(rounding, 2real, x, unit_worth * w1, i, v1);
    lemma_products_are_near(rounding, 0real, factor, factor, i, unit_worth * w, v);
    lemma_nearness_is_shared(rounding, i + 1real, x, factor * v, i + 3real, v1);
    lemma_near_is_monotonic(rounding, i + i + 5real, 200real, factor * v, v1);
}

/// Volumes grow in proportion to the displacement: where one engine is built with `factor` times
/// the displacement of another, its clearance, and its piston area times the throw of its crank,
/// are `factor` times those of the other, up to two hundred units of rounding. The firing order
/// is the same.
pub proof fn law_volumes_grow_with_the_displacement<R: Real>(
    rounding: Rounding<R>,
    engine: EngineView<R>,
    cylinders: usize,
    scale: R,
    factor: R,
)
    requires
        rounding.kept(),
        rounding.precise_powers(),
        engine.same_base(blank_engine()),
        rounding.is_finite(scale),
        rounding.is_finite(factor),
        1real / 11real <= rounding.worth(scale) <= 11real,
        1real / 11real <= rounding.worth(factor) <= 11real,
    ensures
        ({
            let a = engine.reconfigured(cylinders, scale);
            let b = engine.reconfigured(cylinders, factor * scale);
            let k = rounding.worth(factor);
            &&& rounding.near(
                200real,
                k * rounding.worth(a.clearance_volume),
                rounding.worth(b.clearance_volume),
            )
            &&& rounding.near(
                200real,
                k * (rounding.worth(a.piston_area) * rounding.worth(a.crank_radius)),
                rounding.worth(b.piston_area) * rounding.worth(b.crank_radius),
            )
            &&& a.phase_offsets == b.phase_offsets
        }),
{
    let w = rounding.worth(scale);
    let f = rounding.worth(factor);
    let scaled = factor.spec_mul(scale);
    let w1 = rounding.worth(scaled);
    lemma_product_is_bounded(f, 1real / 11real, 11real, w, 1real / 11real, 11real);
    assert(rounding.in_range(f * w));
    assert(rounding.rounds(f * w, scaled));
    assert(rounding.near(1real, f * w, w1));
    lemma_near_is_close(rounding, 1real, f * w, w1);
    lemma_volumes_follow_the_displacement(rounding, engine, cylinders, scale);
    lemma_volumes_follow_the_displacement(rounding, engine, cylinders, scaled);
    lemma_clearance_is_near(rounding, engine, cylinders, scale);
    let a = engine.reconfigured(cylinders, scale);
    let b = engine.reconfigured(cylinders, scaled);
    let k = unit_volume(rounding);
    let swept = rounding.worth(a.piston_area) * (2real * rounding.worth(a.crank_radius));
    let volume = rounding.worth(a.piston_area) * rounding.worth(a.crank_radius);
    let area = rounding.worth(a.piston_area);
    let radius = rounding.worth(a.crank_radius);
    assert(area * (2real * radius) == 2real * (area * radius)) by (nonlinear_arith);
    lemma_near_is_close(rounding, 8real, swept / 8real, rounding.worth(a.clearance_volume));
    assert((k / 4real) * w == k * w / 4real) by (nonlinear_arith);
    assert((k / 4real) * w1 == k * w1 / 4real) by (nonlinear_arith);
    lemma_followers_scale(
        rounding,
        40real,
        k,
        w,
        f,
        w1,
        volume,
        rounding.worth(b.piston_area) * rounding.worth(b.crank_radius),
    );
    lemma_followers_scale(
        rounding,
        49real,
        k / 4real,
        w,
        f,
        w1,
        rounding.worth(a.clearance_volume),
        rounding.worth(b.clearance_volume),
    );
    assert(a.phase_offsets =~= b.phase_offsets);
}

} // verus!
