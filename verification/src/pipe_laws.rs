//! How a pipe rings and dies away, in numbers that round.

use vstd::prelude::*;

use crate::algebra::{lemma_quotient, lemma_times_keeps_order};
use crate::dsp::impulse;
use crate::exact_sound_laws::fed;
use crate::geometry_laws::{
    lemma_factors_are_ordered, lemma_multiples_are_near, lemma_nearness_adds_up,
    lemma_product_is_bounded, lemma_products_are_near, lemma_whole_number_is_exact,
};
use crate::number::Real;
use crate::premises::Rounding;

verus! {

/// How a number type rounds, and the functions of mathematics that its curves come close to.
#[verifier::reject_recursive_types(R)]
pub struct Curves<R> {
    pub rounding: Rounding<R>,
    pub sin: spec_fn(real) -> real,
    pub cos: spec_fn(real) -> real,
    pub exp: spec_fn(real) -> real,
    pub pi: real,
}

/// Whether `y` differs from `x` by at most `gap`.
pub open spec fn close(x: real, y: real, gap: real) -> bool {
    -gap <= y - x <= gap
}

impl<R: Real> Curves<R> {
    pub open spec fn worth(self, a: R) -> real {
        self.rounding.worth(a)
    }

    pub open spec fn sine(self, x: real) -> real {
        (self.sin)(x)
    }

    pub open spec fn cosine(self, x: real) -> real {
        (self.cos)(x)
    }

    pub open spec fn exponential(self, x: real) -> real {
        (self.exp)(x)
    }

    /// Whether the exponential function turns a sum into a product and grows faster than its
    /// argument, which no other function does.
    pub open spec fn grows_exponentially(self, x: real, y: real) -> bool {
        &&& self.exponential(x + y) == self.exponential(x) * self.exponential(y)
        &&& self.exponential(x) >= 1real + x
        &&& self.exponential(x) > 0real
    }

    /// Whether sine and cosine are the coordinates of a point that runs round the unit circle at
    /// the pace of its angle.
    pub open spec fn runs_round(self, x: real, y: real) -> bool {
        &&& self.sine(x) * self.sine(x) + self.cosine(x) * self.cosine(x) == 1real
        &&& self.sine(x + y) == self.sine(x) * self.cosine(y) + self.cosine(x) * self.sine(y)
        &&& self.cosine(x + y) == self.cosine(x) * self.cosine(y) - self.sine(x) * self.sine(y)
        &&& -1real <= self.cosine(x) <= 1real
        &&& x <= y ==> close(self.cosine(x), self.cosine(y), y - x)
        &&& y <= x ==> close(self.cosine(x), self.cosine(y), x - y)
    }

    /// Whether a result with the exact value `x`, of the size of a signal, is within a unit or
    /// two of it.
    pub open spec fn hits(self, x: real, r: R) -> bool {
        self.rounding.is_finite(r) && close(x, self.worth(r), 10real * self.rounding.unit)
    }

    /// Whether the exact value of a result is of the size of a signal.
    pub open spec fn signal_size(self, x: real) -> bool {
        -8real <= x <= 8real
    }

    /// Whether signals are computed to a few units, and cosines and falling exponentials too, and
    /// a sign passes through a quotient.
    pub open spec fn kept(self) -> bool {
        let r = self.rounding;
        &&& r.kept()
        &&& r.unit <= 1real / 1000000000000real
        &&& r.top >= 1000000000000real
        &&& forall|a: R, b: R|
            r.is_finite(a) && r.is_finite(b) && self.signal_size(self.worth(a) + self.worth(b))
                ==> self.hits(self.worth(a) + self.worth(b), #[trigger] a.spec_add(b))
        &&& forall|a: R, b: R|
            r.is_finite(a) && r.is_finite(b) && self.signal_size(self.worth(a) - self.worth(b))
                ==> self.hits(self.worth(a) - self.worth(b), #[trigger] a.spec_sub(b))
        &&& forall|a: R, b: R|
            r.is_finite(a) && r.is_finite(b) && self.signal_size(self.worth(a) * self.worth(b))
                ==> self.hits(self.worth(a) * self.worth(b), #[trigger] a.spec_mul(b))
        &&& forall|a: R, b: R|
            r.is_finite(a.spec_euclidean_or_real_div(b)) ==> {
                let turned = #[trigger] a.spec_neg().spec_euclidean_or_real_div(b);
                &&& r.is_finite(turned)
                &&& self.worth(turned) == -self.worth(a.spec_euclidean_or_real_div(b))
            }
        &&& forall|a: R|
            r.is_finite(a) && self.worth(a) <= 0real ==> self.hits(
                self.exponential(self.worth(a)),
                #[trigger] a.exponential(),
            )
        &&& forall|a: R|
            r.is_finite(a) && 0real <= self.worth(a) <= 1000000real ==> self.hits(
                self.cosine(self.worth(a)),
                #[trigger] a.cosine(),
            )
        &&& forall|x: real, y: real| #[trigger] self.grows_exponentially(x, y)
        &&& forall|x: real, y: real| #[trigger] self.runs_round(x, y)
        &&& 3real < self.pi < 4real
        &&& self.sine(self.pi) == 0real
        &&& self.cosine(self.pi) == -1real
        &&& r.near(1real, self.pi, self.worth(R::circle()))
    }
}

/// The product of a number within `a_most` of zero and one within `b_most` of zero.
proof fn lemma_signed_product(a: real, a_most: real, b: real, b_most: real)
    requires
        -a_most <= a <= a_most,
        -b_most <= b <= b_most,
    ensures
        -(a_most * b_most) <= a * b <= a_most * b_most,
{
    let x = if a < 0real {
        -a
    } else {
        a
    };
    let y = if b < 0real {
        -b
    } else {
        b
    };
    lemma_product_is_bounded(x, 0real, a_most, y, 0real, b_most);
    assert((-a) * b == -(a * b)) by (nonlinear_arith);
    assert(a * (-b) == -(a * b)) by (nonlinear_arith);
    assert((-a) * (-b) == a * b) by (nonlinear_arith);
}

/// The product of two numbers that are close to two others, none of them far from zero.
proof fn lemma_products_are_close(
    x1: real,
    y1: real,
    e1: real,
    x2: real,
    y2: real,
    e2: real,
)
    requires
        close(x1, y1, e1),
        close(x2, y2, e2),
        -4real <= x1 <= 4real,
        -4real <= y2 <= 4real,
    ensures
        close(x1 * x2, y1 * y2, 4real * e1 + 4real * e2),
{
    let p = y1 - x1;
    let q = y2 - x2;
    lemma_signed_product(p, e1, y2, 4real);
    lemma_signed_product(x1, 4real, q, e2);
    assert(p * y2 == y1 * y2 - x1 * y2) by (nonlinear_arith)
        requires
            p == y1 - x1,
    ;
    assert(x1 * q == x1 * y2 - x1 * x2) by (nonlinear_arith)
        requires
            q == y2 - x2,
    ;
    assert(e1 * 4real == 4real * e1);
}

/// The exponential function starts at one and lies between zero and one before that.
proof fn lemma_exponential_falls<R: Real>(curves: Curves<R>, y: real)
    requires
        curves.kept(),
        y <= 0real,
    ensures
        curves.exponential(0real) == 1real,
        0real < curves.exponential(y) <= 1real,
{
    let start = curves.exponential(0real);
    assert(curves.grows_exponentially(0real, 0real));
    assert(0real + 0real == 0real);
    assert(1real * start == start);
    crate::algebra::lemma_cancel(start, 1real, start);
    let e = curves.exponential(y);
    let f = curves.exponential(-y);
    assert(curves.grows_exponentially(y, -y));
    assert(curves.grows_exponentially(-y, y));
    assert(y + (-y) == 0real);
    lemma_times_keeps_order(1real, f, e);
    assert(f * e == e * f) by (nonlinear_arith);
}

/// Before zero the exponential function changes by no more than twice the change of its argument.
proof fn lemma_exponential_is_steady<R: Real>(curves: Curves<R>, x: real, y: real, gap: real)
    requires
        curves.kept(),
        y <= 0real,
        close(y, x, gap),
        0real <= gap <= 1real / 1000real,
    ensures
        close(curves.exponential(y), curves.exponential(x), 2real * gap),
{
    lemma_exponential_falls(curves, y);
    let t = x - y;
    let e = curves.exponential(y);
    let f = curves.exponential(t);
    let g = curves.exponential(-t);
    assert(curves.grows_exponentially(y, t));
    assert(curves.grows_exponentially(t, -t));
    assert(curves.grows_exponentially(-t, t));
    assert(y + t == x);
    assert(t + (-t) == 0real);
    let rest = 1real - gap;
    lemma_times_keeps_order(rest, g, f);
    assert(rest * f == f * rest) by (nonlinear_arith);
    assert(g * f == f * g) by (nonlinear_arith);
    lemma_product_is_bounded(gap, 0real, gap, gap, 0real, 1real / 1000real);
    assert((1real + 2real * gap) * (1real - gap) == 1real + gap - 2real * (gap * gap))
        by (nonlinear_arith);
    lemma_factors_are_ordered(f, 1real + 2real * gap, rest);
    let h = f - 1real;
    lemma_signed_product(e, 1real, h, 2real * gap);
    assert(e * h == e * f - e) by (nonlinear_arith)
        requires
            h == f - 1real,
    ;
}

/// The computed product of two numbers that are near to `x` and `y` is near to `x * y`.
proof fn lemma_vast_product_is_near<R: Real>(
    rounding: Rounding<R>,
    i: real,
    x: real,
    a: R,
    j: real,
    y: real,
    b: R,
)
    requires
        rounding.kept(),
        rounding.top >= 1000000000000real,
        0real <= i <= 40real,
        0real <= j <= 40real,
        0real <= x,
        0real <= y,
        x * y == 0real || 1real / 100000000real <= x * y <= 10000000000real,
        rounding.is_finite(a),
        rounding.is_finite(b),
        rounding.near(i, x, rounding.worth(a)),
        rounding.near(j, y, rounding.worth(b)),
    ensures
        rounding.is_finite(a.spec_mul(b)),
        rounding.near(i + j + 3real, x * y, rounding.worth(a.spec_mul(b))),
{
    let exact = rounding.worth(a) * rounding.worth(b);
    let k = i + j + 1real;
    lemma_products_are_near(rounding, i, x, rounding.worth(a), j, y, rounding.worth(b));
    crate::geometry_laws::lemma_near_is_close(rounding, k, x * y, exact);
    assert(rounding.in_range(exact));
    assert(rounding.rounds(exact, a.spec_mul(b)));
    assert(rounding.near(1real, exact, rounding.worth(a.spec_mul(b))));
    lemma_nearness_adds_up(rounding, k, x * y, exact, 1real, rounding.worth(a.spec_mul(b)));
}

/// The computed quotient of a number that is near to `x` is near to the quotient of `x`.
proof fn lemma_vast_quotient_is_near<R: Real>(
    rounding: Rounding<R>,
    i: real,
    x: real,
    a: R,
    b: R,
)
    requires
        rounding.kept(),
        rounding.top >= 1000000000000real,
        0real <= i <= 40real,
        0real <= x,
        rounding.is_finite(a),
        rounding.is_finite(b),
        0real < rounding.worth(b),
        x / rounding.worth(b) == 0real || 1real / 100000000real <= x / rounding.worth(b)
            <= 10000000000real,
        rounding.near(i, x, rounding.worth(a)),
    ensures
        rounding.is_finite(a.spec_euclidean_or_real_div(b)),
        rounding.near(
            i + 2real,
            x / rounding.worth(b),
            rounding.worth(a.spec_euclidean_or_real_div(b)),
        ),
{
    let k = rounding.worth(b);
    let v = rounding.worth(a);
    let c = 1real / k;
    let exact = v / k;
    let r = a.spec_euclidean_or_real_div(b);
    lemma_quotient(1real, k);
    crate::algebra::lemma_quotient_is_positive(1real, k);
    lemma_share_of_a_number(v, k);
    lemma_share_of_a_number(x, k);
    lemma_multiples_are_near(rounding, i, x, v, c);
    crate::geometry_laws::lemma_near_is_close(rounding, i, c * x, exact);
    assert(rounding.in_range(exact));
    assert(rounding.rounds(exact, r));
    assert(rounding.near(1real, exact, rounding.worth(r)));
    lemma_nearness_adds_up(rounding, i, c * x, exact, 1real, rounding.worth(r));
}

proof fn lemma_share_of_a_number(x: real, k: real)
    requires
        0real < k,
    ensures
        (1real / k) * x == x / k,
{
    let c = 1real / k;
    let q = x / k;
    lemma_quotient(1real, k);
    lemma_quotient(x, k);
    assert((c * x) * k == (c * k) * x) by (nonlinear_arith);
    assert(1real * x == x);
    crate::algebra::lemma_cancel(c * x, q, k);
}

/// A few units of a number are little.
proof fn lemma_near_is_close_by<R: Real>(
    rounding: Rounding<R>,
    i: real,
    x: real,
    y: real,
    most: real,
)
    requires
        0real < rounding.unit <= 1real / 1000000000000real,
        0real <= i <= 20real,
        0real <= x <= most,
        rounding.near(i, x, y),
    ensures
        close(x, y, 20real * (most / 1000000000000real)),
{
    let u = rounding.unit;
    lemma_product_is_bounded(u, 0real, 1real / 1000000000000real, x, 0real, most);
    assert((1real / 1000000000000real) * most == most / 1000000000000real);
    lemma_product_is_bounded(i, 0real, 20real, u * x, 0real, most / 1000000000000real);
}

proof fn lemma_age_is_near<R: Real>(rounding: Rounding<R>, i: int)
    requires
        rounding.kept(),
        rounding.top >= 1000000000000real,
        0 <= i <= 2000,
    ensures
        rounding.is_finite(R::fraction(i as u64, 1)),
        rounding.near(1real, i as real, rounding.worth(R::fraction(i as u64, 1))),
{
    let n = i as u64;
    let x = n as real;
    assert(x == i as real);
    assert(x / 1real == x);
    assert(rounding.in_range(n as real / 1u64 as real));
    assert(rounding.rounds(n as real / 1u64 as real, R::fraction(n, 1)));
}

/// The computed envelope at tap `i`.
proof fn lemma_envelope_is_close<R: Real>(curves: Curves<R>, decay_speed: R, i: int)
    requires
        curves.kept(),
        0 <= i <= 2000,
        curves.rounding.is_finite(decay_speed),
        1real <= curves.worth(decay_speed) <= 100000real,
    ensures
        ({
            let envelope = R::fraction(i as u64, 1).spec_neg().spec_euclidean_or_real_div(
                decay_speed,
            ).exponential();
            let exact = curves.exponential((-(i as real)) / curves.worth(decay_speed));
            &&& curves.rounding.is_finite(envelope)
            &&& 0real < exact <= 1real
            &&& close(exact, curves.worth(envelope), 3real / 10000000real)
        }),
{
    let r = curves.rounding;
    let d = curves.worth(decay_speed);
    let x = i as real;
    let age = R::fraction(i as u64, 1);
    lemma_age_is_near::<R>(r, i);
    let q = x / d;
    lemma_quotient(x, d);
    if q > 2000real {
        crate::algebra::lemma_times_keeps_strict_order(2000real, q, d);
    }
    if i == 0 {
        assert(q == 0real) by {
            assert(0real * d == 0real);
            crate::algebra::lemma_cancel(q, 0real, d);
        }
    } else if q < 1real / 100000real {
        crate::algebra::lemma_times_keeps_strict_order(q, 1real / 100000real, d);
    }
    lemma_vast_quotient_is_near(r, 1real, x, age, decay_speed);
    let v = age.spec_euclidean_or_real_div(decay_speed);
    lemma_near_is_close_by(r, 3real, q, curves.worth(v), 2000real);
    let turned = age.spec_neg().spec_euclidean_or_real_div(decay_speed);
    assert(curves.worth(turned) == -curves.worth(v));
    assert(curves.worth(v) >= 0real) by {
        crate::geometry_laws::lemma_near_is_close(r, 3real, q, curves.worth(v));
    }
    let y = (-x) / d;
    lemma_quotient(-x, d);
    assert((-q) * d == -(q * d)) by (nonlinear_arith);
    crate::algebra::lemma_cancel(y, -q, d);
    lemma_exponential_falls(curves, y);
    lemma_exponential_is_steady(curves, curves.worth(turned), y, 1real / 10000000real);
    assert(curves.hits(curves.exponential(curves.worth(turned)), turned.exponential()));
}

/// The computed swing at tap `i`.
proof fn lemma_swing_is_close<R: Real>(
    curves: Curves<R>,
    sample_rate: R,
    resonance_freq: R,
    i: int,
)
    requires
        curves.kept(),
        0 <= i <= 2000,
        curves.rounding.is_finite(sample_rate),
        curves.rounding.is_finite(resonance_freq),
        1000real <= curves.worth(sample_rate) <= 1000000real,
        1real <= curves.worth(resonance_freq) <= 100000real,
        curves.worth(resonance_freq) <= curves.worth(sample_rate),
    ensures
        ({
            let angle = R::fraction(i as u64, 1).spec_mul(R::fraction(2, 1)).spec_mul(
                R::circle(),
            ).spec_mul(resonance_freq).spec_euclidean_or_real_div(sample_rate);
            let exact = curves.cosine(
                i as real * 2real * curves.pi * curves.worth(resonance_freq) / curves.worth(
                    sample_rate,
                ),
            );
            &&& curves.rounding.is_finite(angle.cosine())
            &&& -1real <= exact <= 1real
            &&& close(exact, curves.worth(angle.cosine()), 5real / 10000000real)
        }),
{
    let r = curves.rounding;
    let x = i as real;
    let f = curves.worth(resonance_freq);
    let rate = curves.worth(sample_rate);
    let age = R::fraction(i as u64, 1);
    lemma_age_is_near::<R>(r, i);
    lemma_whole_number_is_exact::<R>(r, 2);
    let two = R::fraction(2, 1);
    assert(r.near(0real, 2real, 2real));
    assert(r.near(0real, f, f));
    let a2 = age.spec_mul(two);
    lemma_vast_product_is_near(r, 1real, x, age, 0real, 2real, two);
    let x2 = x * 2real;
    let a3 = a2.spec_mul(R::circle());
    let x3 = x2 * curves.pi;
    let a4 = a3.spec_mul(resonance_freq);
    let x4 = x3 * f;
    if i == 0 {
        assert(x2 == 0real);
        assert(0real * curves.pi == 0real);
        assert(x3 == 0real);
        assert(0real * f == 0real);
        assert(x4 == 0real);
    } else {
        lemma_product_is_bounded(x2, 2real, 4000real, curves.pi, 3real, 4real);
        lemma_product_is_bounded(x3, 6real, 16000real, f, 1real, 100000real);
    }
    lemma_vast_product_is_near(r, 4real, x2, a2, 1real, curves.pi, R::circle());
    lemma_vast_product_is_near(r, 8real, x3, a3, 0real, f, resonance_freq);
    let q = x4 / rate;
    lemma_quotient(x4, rate);
    if i == 0 {
        assert(0real * rate == 0real);
        crate::algebra::lemma_cancel(q, 0real, rate);
    } else {
        if q < 1real / 1000000real {
            crate::algebra::lemma_times_keeps_strict_order(q, 1real / 1000000real, rate);
        }
        lemma_product_is_bounded(x3, 0real, 16000real, f, 0real, rate);
        if q > 16000real {
            crate::algebra::lemma_times_keeps_strict_order(16000real, q, rate);
        }
    }
    lemma_vast_quotient_is_near(r, 11real, x4, a4, sample_rate);
    let angle = a4.spec_euclidean_or_real_div(sample_rate);
    let v = curves.worth(angle);
    lemma_near_is_close_by(r, 13real, q, v, 16000real);
    crate::geometry_laws::lemma_near_is_close(r, 13real, q, v);
    assert(curves.runs_round(q, v));
    assert(curves.hits(curves.cosine(v), angle.cosine()));
}

/// The noise and the swing that go into tap `i`, as they are mixed.
proof fn lemma_mixture_is_close<R: Real>(
    curves: Curves<R>,
    noise: R,
    envelope: R,
    swing: R,
    e: real,
    c: real,
)
    requires
        curves.kept(),
        curves.rounding.is_finite(noise),
        curves.rounding.is_finite(envelope),
        curves.rounding.is_finite(swing),
        -1real <= curves.worth(noise) <= 1real,
        0real <= e <= 1real,
        -1real <= c <= 1real,
        close(e, curves.worth(envelope), 3real / 10000000real),
        close(c, curves.worth(swing), 5real / 10000000real),
    ensures
        ({
            let half = R::fraction(1, 2);
            let mixed = noise.spec_mul(envelope).spec_mul(half).spec_add(
                swing.spec_mul(envelope).spec_mul(half),
            );
            let exact = (curves.worth(noise) + c) * e / 2real;
            &&& curves.rounding.is_finite(mixed)
            &&& -1real <= exact <= 1real
            &&& close(exact, curves.worth(mixed), 3real / 100000real)
        }),
{
    let r = curves.rounding;
    let u = r.unit;
    let half = R::fraction(1, 2);
    assert(r.in_range(1real / 2real));
    assert(r.rounds(1real / 2real, half));
    let h = curves.worth(half);
    assert(close(1real / 2real, h, 1real / 1000000000000real));
    let n = curves.worth(noise);
    let w = curves.worth(envelope);
    let z = curves.worth(swing);
    lemma_signed_product(n, 1real, w, 2real);
    lemma_signed_product(z, 2real, w, 2real);
    lemma_signed_product(n, 1real, e, 1real);
    lemma_signed_product(c, 1real, e, 1real);
    let n1 = noise.spec_mul(envelope);
    assert(curves.hits(n * w, n1));
    lemma_products_are_close(n, n, 0real, e, w, 3real / 10000000real);
    assert(close(n * e, curves.worth(n1), 13real / 10000000real));
    let z1 = swing.spec_mul(envelope);
    assert(curves.hits(z * w, z1));
    lemma_products_are_close(c, z, 5real / 10000000real, e, w, 3real / 10000000real);
    assert(close(c * e, curves.worth(z1), 33real / 10000000real));
    let m1 = curves.worth(n1);
    let m2 = curves.worth(z1);
    lemma_signed_product(m1, 2real, h, 1real);
    lemma_signed_product(m2, 2real, h, 1real);
    let n2 = n1.spec_mul(half);
    assert(curves.hits(m1 * h, n2));
    lemma_products_are_close(
        n * e,
        m1,
        13real / 10000000real,
        1real / 2real,
        h,
        1real / 1000000000000real,
    );
    let z2 = z1.spec_mul(half);
    assert(curves.hits(m2 * h, z2));
    lemma_products_are_close(
        c * e,
        m2,
        33real / 10000000real,
        1real / 2real,
        h,
        1real / 1000000000000real,
    );
    assert((n * e) * (1real / 2real) == n * e / 2real);
    assert((c * e) * (1real / 2real) == c * e / 2real);
    assert((n + c) * e == n * e + c * e) by (nonlinear_arith);
    assert(curves.hits(curves.worth(n2) + curves.worth(z2), n2.spec_add(z2)));
}

/// The low-pass takes three tenths of the way from where it is to what it is fed.
proof fn lemma_low_pass_is_close<R: Real>(curves: Curves<R>, before: R, mixed: R)
    requires
        curves.kept(),
        curves.rounding.is_finite(before),
        curves.rounding.is_finite(mixed),
        -(3real / 2real) <= curves.worth(before) <= 3real / 2real,
        -(11real / 10real) <= curves.worth(mixed) <= 11real / 10real,
    ensures
        ({
            let tap = before.spec_add(R::fraction(3, 10).spec_mul(mixed.spec_sub(before)));
            &&& curves.rounding.is_finite(tap)
            &&& -(3real / 2real) <= curves.worth(tap) <= 3real / 2real
            &&& close(
                curves.worth(mixed),
                fed(curves.worth(before), curves.worth(tap)),
                1real / 1000000000real,
            )
        }),
{
    let r = curves.rounding;
    let part = R::fraction(3, 10);
    let exact = 3real / 10real;
    assert(r.in_range(exact));
    assert(r.rounds(exact, part));
    assert(r.near(1real, exact, curves.worth(part)));
    lemma_near_is_close_by(r, 1real, exact, curves.worth(part), 1real);
    let l = curves.worth(before);
    let m = curves.worth(mixed);
    let gap = mixed.spec_sub(before);
    assert(curves.hits(m - l, gap));
    let g = curves.worth(gap);
    let c = curves.worth(part);
    lemma_signed_product(c, 1real, g, 4real);
    let step = part.spec_mul(gap);
    assert(curves.hits(c * g, step));
    lemma_products_are_close(
        exact,
        c,
        20real / 1000000000000real,
        m - l,
        g,
        10real / 1000000000000real,
    );
    assert(exact * (m - l) == 3real / 10real * (m - l));
    assert(curves.hits(l + curves.worth(step), before.spec_add(step)));
}

/// Whether all numbers of the noise up to tap `i` are finite and between minus one and one.
pub open spec fn noise_in_range<R: Real>(curves: Curves<R>, noise: Seq<R>, i: int) -> bool {
    forall|k: int|
        0 <= k <= i ==> curves.rounding.is_finite(#[trigger] noise[k]) && -1real <= curves.worth(
            noise[k],
        ) <= 1real
}

proof fn lemma_tap_is_bounded<R: Real>(
    curves: Curves<R>,
    sample_rate: R,
    resonance_freq: R,
    decay_speed: R,
    noise: Seq<R>,
    i: int,
)
    requires
        curves.kept(),
        0 <= i <= 2001,
        noise_in_range(curves, noise, i - 1),
        curves.rounding.is_finite(sample_rate),
        curves.rounding.is_finite(resonance_freq),
        curves.rounding.is_finite(decay_speed),
        1000real <= curves.worth(sample_rate) <= 1000000real,
        1real <= curves.worth(resonance_freq) <= 100000real,
        curves.worth(resonance_freq) <= curves.worth(sample_rate),
        1real <= curves.worth(decay_speed) <= 100000real,
    ensures
        ({
            let tap = impulse(sample_rate, resonance_freq, decay_speed, noise, i);
            &&& curves.rounding.is_finite(tap)
            &&& -(3real / 2real) <= curves.worth(tap) <= 3real / 2real
            &&& i == 0 ==> curves.worth(tap) == 0real
            &&& i > 0 ==> {
                let before = impulse(sample_rate, resonance_freq, decay_speed, noise, i - 1);
                let x = (i - 1) as real;
                let swing = curves.cosine(
                    x * 2real * curves.pi * curves.worth(resonance_freq) / curves.worth(
                        sample_rate,
                    ),
                );
                let envelope = curves.exponential((-x) / curves.worth(decay_speed));
                close(
                    (curves.worth(noise[i - 1]) + swing) * envelope / 2real,
                    fed(curves.worth(before), curves.worth(tap)),
                    1real / 10000real,
                )
            }
        }),
    decreases i,
{
    let r = curves.rounding;
    if i == 0 {
        assert(r.in_range(0real / 1real));
        assert(r.rounds(0real / 1real, R::fraction(0, 1)));
    } else {
        let j = i - 1;
        lemma_tap_is_bounded(curves, sample_rate, resonance_freq, decay_speed, noise, j);
        lemma_envelope_is_close(curves, decay_speed, j);
        lemma_swing_is_close(curves, sample_rate, resonance_freq, j);
        let x = j as real;
        let e = curves.exponential((-x) / curves.worth(decay_speed));
        let c = curves.cosine(
            x * 2real * curves.pi * curves.worth(resonance_freq) / curves.worth(sample_rate),
        );
        let age = R::fraction(j as u64, 1);
        let envelope = age.spec_neg().spec_euclidean_or_real_div(decay_speed).exponential();
        let swing = age.spec_mul(R::fraction(2, 1)).spec_mul(R::circle()).spec_mul(
            resonance_freq,
        ).spec_euclidean_or_real_div(sample_rate).cosine();
        lemma_mixture_is_close(curves, noise[j], envelope, swing, e, c);
        let half = R::fraction(1, 2);
        let mixed = noise[j].spec_mul(envelope).spec_mul(half).spec_add(
            swing.spec_mul(envelope).spec_mul(half),
        );
        let before = impulse(sample_rate, resonance_freq, decay_speed, noise, j);
        lemma_low_pass_is_close(curves, before, mixed);
        assert(impulse(sample_rate, resonance_freq, decay_speed, noise, i) == before.spec_add(
            R::fraction(3, 10).spec_mul(mixed.spec_sub(before)),
        ));
    }
}

/// A pipe answers with noise and a resonance that die away together, to the ten-thousandth: at tap
/// `i` the low-pass, which takes three tenths of the way to what it is fed, is fed the mean of the
/// noise and of a cosine of the resonance frequency, times an envelope that falls to its `e`-th
/// part within the decay time.
pub proof fn law_pipe_response_dies_away<R: Real>(
    curves: Curves<R>,
    sample_rate: R,
    resonance_freq: R,
    decay_speed: R,
    noise: Seq<R>,
    i: int,
)
    requires
        curves.kept(),
        0 <= i <= 2000,
        noise_in_range(curves, noise, i),
        curves.rounding.is_finite(sample_rate),
        curves.rounding.is_finite(resonance_freq),
        curves.rounding.is_finite(decay_speed),
        1000real <= curves.worth(sample_rate) <= 1000000real,
        1real <= curves.worth(resonance_freq) <= 100000real,
        curves.worth(resonance_freq) <= curves.worth(sample_rate),
        1real <= curves.worth(decay_speed) <= 100000real,
    ensures
        ({
            let before = impulse(sample_rate, resonance_freq, decay_speed, noise, i);
            let tap = impulse(sample_rate, resonance_freq, decay_speed, noise, i + 1);
            let x = i as real;
            let swing = curves.cosine(
                x * 2real * curves.pi * curves.worth(resonance_freq) / curves.worth(sample_rate),
            );
            let envelope = curves.exponential((-x) / curves.worth(decay_speed));
            &&& i == 0 ==> curves.worth(before) == 0real
            &&& curves.rounding.is_finite(tap)
            &&& close(
                (curves.worth(noise[i]) + swing) * envelope / 2real,
                fed(curves.worth(before), curves.worth(tap)),
                1real / 10000real,
            )
        }),
{
    lemma_tap_is_bounded(curves, sample_rate, resonance_freq, decay_speed, noise, i);
    lemma_tap_is_bounded(curves, sample_rate, resonance_freq, decay_speed, noise, i + 1);
}

} // verus!
