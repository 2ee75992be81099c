//! What comes out in numbers that round: the angle in the cycle, the header delays, what the
//! pipes hear and what the panel reads.

use vstd::prelude::*;

use crate::algebra::{lemma_quotient, lemma_times_keeps_order};
use crate::display::limiter_shown;
use crate::engine::{EngineView, StrokeNoise, speed};
use crate::exact::is_rest;
use crate::exact_engine_laws::periods_apart;
use crate::geometry_laws::{
    lemma_factors_are_ordered, lemma_multiples_are_near, lemma_near_is_close,
    lemma_nearness_adds_up, lemma_product_is_bounded, lemma_products_are_near,
    lemma_whole_number_is_exact,
};
use crate::number::Real;
use crate::premises::{Rounding, Zeros, faithful_words, nil};
use crate::synth::{SynthView, total};
use crate::telemetry::{MAX_CYLINDERS, SharedView};

verus! {

/// Whatever the crank angle from zero on, the angle within the cycle is what is left of it and
/// the offset once whole cycles are taken off: it lies within one cycle, of four times the circle
/// number up to a unit of rounding, and differs from crank angle and offset by whole cycles.
pub proof fn law_cycle_angle_lies_within_the_cycle<R: Real>(
    rounding: Rounding<R>,
    engine: EngineView<R>,
    i: int,
)
    requires
        rounding.kept(),
        rounding.exact_remainders(),
        rounding.is_finite(engine.crank_angle + engine.phase_offsets[i]),
        0real <= rounding.worth(engine.crank_angle + engine.phase_offsets[i]),
    ensures
        exists|cycle: real|
            {
                &&& rounding.near(1real, 4real * rounding.worth(R::circle()), cycle)
                &&& #[trigger] within_cycle(
                    rounding.worth(engine.crank_angle + engine.phase_offsets[i]),
                    rounding.worth(engine.pose(i).cycle_angle),
                    cycle,
                )
            },
{
    lemma_whole_number_is_exact::<R>(rounding, 4);
    let four = R::fraction(4, 1);
    let pi = rounding.worth(R::circle());
    let whole = four.spec_mul(R::circle());
    assert(rounding.in_range(4real * pi));
    assert(rounding.rounds(4real * pi, whole));
    let cycle = rounding.worth(whole);
    assert(rounding.near(1real, 4real * pi, cycle));
    lemma_near_is_close(rounding, 1real, 4real * pi, cycle);
    let theta = engine.crank_angle.spec_add(engine.phase_offsets[i]);
    let rest = theta.remainder(whole);
    assert(rounding.is_finite(rest));
    let k = choose|k: int| #[trigger]
        is_rest(k, rounding.worth(theta), cycle, rounding.worth(rest));
    assert(rounding.in_range(0real / 1real));
    assert(rounding.rounds(0real / 1real, R::fraction(0, 1)));
    assert(engine.pose(i).cycle_angle == rest);
    assert(periods_apart(k, rounding.worth(theta), rounding.worth(rest), cycle));
    assert(within_cycle(rounding.worth(theta), rounding.worth(rest), cycle));
}

/// Whether `angle` lies within a cycle and differs from `theta` by whole cycles.
pub open spec fn within_cycle(theta: real, angle: real, cycle: real) -> bool {
    &&& 0real <= angle < cycle
    &&& exists|k: int| #[trigger] periods_apart(k, theta, angle, cycle)
}

proof fn lemma_total_is_the_fold<R: Real>(xs: Seq<R>, n: int)
    requires
        0 <= n <= xs.len(),
    ensures
        total(xs, n) == xs.take(n).fold_left(R::fraction(0, 1), |a: R, x: R| a.spec_add(x)),
    decreases n,
{
    let f = |a: R, x: R| a.spec_add(x);
    if n > 0 {
        lemma_total_is_the_fold(xs, n - 1);
        assert(xs.take(n).drop_last() =~= xs.take(n - 1));
        assert(xs.take(n).last() == xs[n - 1]);
    }
}

/// The intake box hears the intake flows of all cylinders of the engine, added up one by one, and
/// the exhaust pipe what comes out of all their headers.
pub proof fn law_every_cylinder_is_added_up<R: Real>(
    synth: SynthView<R>,
    throttle: R,
    noise: Seq<StrokeNoise<R>>,
)
    requires
        synth.engine.num_cylinders <= MAX_CYLINDERS,
        synth.header_delays.len() == synth.engine.num_cylinders,
        synth.intake_box.heard.len() > 0,
        synth.exhaust_pipe.heard.len() > 0,
    ensures
        ({
            let after = synth.advanced(throttle, noise);
            let n = synth.engine.num_cylinders as int;
            let flows = synth.engine.intake_sounds(synth.dt, throttle, noise);
            let arriving = Seq::new(n as nat, |i: int| synth.header_delays[i][0]);
            let plus = |a: R, x: R| a.spec_add(x);
            &&& after.intake_box.heard[0] == flows.take(n).fold_left(R::fraction(0, 1), plus)
            &&& after.exhaust_pipe.heard[0] == arriving.fold_left(R::fraction(0, 1), plus)
        }),
{
    let n = synth.engine.num_cylinders as int;
    let flows = synth.engine.intake_sounds(synth.dt, throttle, noise);
    lemma_total_is_the_fold(flows, n);
    lemma_total_is_the_fold(synth.arriving(), n);
    let arriving = Seq::new(n as nat, |i: int| synth.header_delays[i][0]);
    assert(synth.arriving().take(n) =~= arriving);
}

proof fn lemma_one_number_is_the_sum<R: Real>(zeros: Zeros<R>, xs: Seq<R>, i: int, n: int)
    requires
        zeros.kept(),
        0 <= i < xs.len(),
        0 <= n <= xs.len(),
        zeros.is_unsigned(xs[i]),
        forall|j: int| 0 <= j < n && j != i ==> nil(#[trigger] xs[j]),
    ensures
        total(xs, n) == if i < n {
            xs[i]
        } else {
            R::fraction(0, 1)
        },
    decreases n,
{
    if n > 0 {
        lemma_one_number_is_the_sum(zeros, xs, i, n - 1);
        let before = total(xs, n - 1);
        if n - 1 == i {
            assert(before == R::fraction(0, 1));
            assert(R::fraction(0, 1).spec_add(xs[i]) == xs[i]);
        } else {
            assert(nil(xs[n - 1]));
            assert(zeros.is_unsigned(before));
            assert(before.spec_add(xs[n - 1]) == before);
        }
    }
}

/// Every cylinder is heard through the intake, whatever their number: where all others are
/// silent, what the intake box hears is the flow of that one. The same goes for the headers and
/// the exhaust pipe.
pub proof fn law_single_cylinder_is_heard<R: Real>(
    zeros: Zeros<R>,
    synth: SynthView<R>,
    throttle: R,
    noise: Seq<StrokeNoise<R>>,
    i: int,
)
    requires
        zeros.kept(),
        0 <= i < synth.engine.num_cylinders <= MAX_CYLINDERS,
        synth.header_delays.len() == synth.engine.num_cylinders,
        synth.intake_box.heard.len() > 0,
        synth.exhaust_pipe.heard.len() > 0,
    ensures
        ({
            let after = synth.advanced(throttle, noise);
            let n = synth.engine.num_cylinders as int;
            let flows = synth.engine.intake_sounds(synth.dt, throttle, noise);
            let lines = synth.header_delays;
            &&& zeros.is_unsigned(flows[i]) && (forall|j: int|
                0 <= j < n && j != i ==> nil(#[trigger] flows[j])) ==> after.intake_box.heard[0]
                == flows[i]
            &&& zeros.is_unsigned(lines[i][0]) && (forall|j: int|
                0 <= j < n && j != i ==> nil(#[trigger] lines[j][0]))
                ==> after.exhaust_pipe.heard[0] == lines[i][0]
        }),
{
    let n = synth.engine.num_cylinders as int;
    let flows = synth.engine.intake_sounds(synth.dt, throttle, noise);
    let lines = synth.header_delays;
    if zeros.is_unsigned(flows[i]) && (forall|j: int|
        0 <= j < n && j != i ==> nil(#[trigger] flows[j])) {
        lemma_one_number_is_the_sum(zeros, flows, i, n);
    }
    if zeros.is_unsigned(lines[i][0]) && (forall|j: int|
        0 <= j < n && j != i ==> nil(#[trigger] lines[j][0])) {
        let arriving = synth.arriving();
        assert forall|j: int| 0 <= j < n && j != i implies nil(#[trigger] arriving[j]) by {
            assert(arriving[j] == lines[j][0]);
        }
        assert(arriving[i] == lines[i][0]);
        lemma_one_number_is_the_sum(zeros, arriving, i, n);
    }
}

/// The computed product of two numbers that are near to `x` and `y` is near to `x * y`.
proof fn lemma_large_product_is_near<R: Real>(
    rounding: Rounding<R>,
    i: real,
    x: real,
    a: R,
    j: real,
    y: real,
    b: R,
)
    requires
        rounding.kept(),
        rounding.roomy(),
        0real <= i <= 40real,
        0real <= j <= 40real,
        0real <= x,
        0real <= y,
        1real / 100000000real <= x * y <= 500000real,
        rounding.is_finite(a),
        rounding.is_finite(b),
        rounding.near(i, x, rounding.worth(a)),
        rounding.near(j, y, rounding.worth(b)),
    ensures
        rounding.is_finite(a.spec_mul(b)),
        rounding.near(i + j + 3real, x * y, rounding.worth(a.spec_mul(b))),
{
    let exact = rounding.worth(a) * rounding.worth(b);
    lemma_products_are_near(rounding, i, x, rounding.worth(a), j, y, rounding.worth(b));
    lemma_near_is_close(rounding, i + j + 1real, x * y, exact);
    assert(1real / 1000000000real <= exact);
    assert(exact <= 1000000real);
    assert(rounding.in_range(exact));
    assert(rounding.rounds(exact, a.spec_mul(b)));
    assert(rounding.near(1real, exact, rounding.worth(a.spec_mul(b))));
    lemma_nearness_adds_up(
        rounding,
        i + j + 1real,
        x * y,
        exact,
        1real,
        rounding.worth(a.spec_mul(b)),
    );
}

/// A number divided by one that is near to `y` is near to the number divided by `y`.
proof fn lemma_reciprocal_is_near<R: Real>(rounding: Rounding<R>, x: real, y: real, z: real)
    requires
        0real < rounding.unit <= 1real / 1000000real,
        0real < x,
        0real < y,
        rounding.near(1real, y, z),
    ensures
        0real < z,
        0real < x / y,
        rounding.near(2real, x / y, x / z),
{
    let u = rounding.unit;
    lemma_near_is_close(rounding, 1real, y, z);
    lemma_quotient(x, y);
    lemma_quotient(x, z);
    crate::algebra::lemma_quotient_is_positive(x, y);
    let a = x / z;
    let b = x / y;
    let e = u * y;
    let gap = y - z;
    assert((a - b) * z == a * z - b * z) by (nonlinear_arith);
    assert(b * gap == b * y - b * z) by (nonlinear_arith)
        requires
            gap == y - z,
    ;
    assert((a - b) * z == b * gap);
    lemma_times_keeps_order(gap, e, b);
    lemma_times_keeps_order(-e, gap, b);
    assert(gap * b == b * gap) by (nonlinear_arith);
    assert((-e) * b == -(e * b)) by (nonlinear_arith);
    lemma_product_is_bounded(u, 0real, u, b, 0real, b);
    lemma_times_keeps_order(y, 2real * z, u * b);
    assert(y * (u * b) == (u * y) * b) by (nonlinear_arith);
    assert((2real * z) * (u * b) == (2real * (u * b)) * z) by (nonlinear_arith);
    let most = 2real * (u * b);
    assert((-most) * z == -(most * z)) by (nonlinear_arith);
    assert(b * gap <= most * z);
    assert(-(most * z) <= b * gap);
    lemma_factors_are_ordered(a - b, most, z);
    lemma_factors_are_ordered(-most, a - b, z);
}

/// The turns per minute of one radian per second, and the radians per second of one turn per
/// minute.
proof fn lemma_turns_are_near<R: Real>(rounding: Rounding<R>)
    requires
        rounding.kept(),
        rounding.roomy(),
    ensures
        ({
            let whole = R::fraction(2, 1).spec_mul(R::circle());
            let turns = R::fraction(60, 1).spec_euclidean_or_real_div(whole);
            let pace = whole.spec_euclidean_or_real_div(R::fraction(60, 1));
            let round = 2real * rounding.worth(R::circle());
            &&& rounding.is_finite(turns)
            &&& rounding.is_finite(pace)
            &&& rounding.near(4real, 60real / round, rounding.worth(turns))
            &&& rounding.near(3real, round / 60real, rounding.worth(pace))
        }),
{
    lemma_whole_number_is_exact::<R>(rounding, 2);
    lemma_whole_number_is_exact::<R>(rounding, 60);
    let sixty = R::fraction(60, 1);
    let whole = R::fraction(2, 1).spec_mul(R::circle());
    let round = 2real * rounding.worth(R::circle());
    assert(rounding.in_range(round));
    assert(rounding.rounds(round, whole));
    let q = rounding.worth(whole);
    assert(rounding.near(1real, round, q));
    lemma_near_is_close(rounding, 1real, round, q);
    lemma_reciprocal_is_near(rounding, 60real, round, q);
    let b = 60real / q;
    lemma_quotient(60real, q);
    if b > 1000real {
        crate::algebra::lemma_times_keeps_strict_order(1000real, b, q);
    }
    if b < 1real {
        crate::algebra::lemma_times_keeps_strict_order(b, 1real, q);
    }
    assert(rounding.in_range(b));
    let turns = sixty.spec_euclidean_or_real_div(whole);
    assert(rounding.rounds(b, turns));
    assert(rounding.near(1real, b, rounding.worth(turns)));
    lemma_nearness_adds_up(rounding, 2real, 60real / round, b, 1real, rounding.worth(turns));
    let pace = whole.spec_euclidean_or_real_div(sixty);
    let c = q / 60real;
    assert(rounding.in_range(c));
    assert(rounding.rounds(c, pace));
    assert(rounding.near(1real, c, rounding.worth(pace)));
    lemma_multiples_are_near(rounding, 1real, round, q, 1real / 60real);
    assert(1real / 60real * round == round / 60real);
    assert(1real / 60real * q == c);
    lemma_nearness_adds_up(rounding, 1real, round / 60real, c, 1real, rounding.worth(pace));
}

/// The published speed is that of the engine, in turns per minute, up to seven units of rounding:
/// sixty for every full turn, of twice the circle number, in a second.
pub proof fn law_published_speed_is_the_engine_speed<R: Real>(
    rounding: Rounding<R>,
    synth: SynthView<R>,
    shared: SharedView,
    exhausts: Seq<R>,
    intakes: Seq<R>,
)
    requires
        rounding.kept(),
        rounding.roomy(),
        faithful_words::<R>(),
        rounding.is_finite(synth.engine.angular_velocity),
        1real / 1000real <= rounding.worth(synth.engine.angular_velocity) <= 10000real,
    ensures
        ({
            let shown = R::decoded(synth.published(shared, exhausts, intakes).rpm);
            let round = 2real * rounding.worth(R::circle());
            &&& rounding.is_finite(shown)
            &&& rounding.near(
                7real,
                rounding.worth(synth.engine.angular_velocity) * (60real / round),
                rounding.worth(shown),
            )
        }),
{
    lemma_turns_are_near(rounding);
    let velocity = synth.engine.angular_velocity;
    let v = rounding.worth(velocity);
    let round = 2real * rounding.worth(R::circle());
    let turns = R::fraction(60, 1).spec_euclidean_or_real_div(
        R::fraction(2, 1).spec_mul(R::circle()),
    );
    let t = 60real / round;
    lemma_quotient(60real, round);
    if t > 10real {
        crate::algebra::lemma_times_keeps_strict_order(10real, t, round);
    }
    if t < 7real {
        crate::algebra::lemma_times_keeps_strict_order(t, 7real, round);
    }
    lemma_product_is_bounded(v, 1real / 1000real, 10000real, t, 7real, 10real);
    assert(rounding.near(0real, v, v));
    lemma_large_product_is_near(rounding, 0real, v, velocity, 4real, t, turns);
    let shown = velocity.spec_mul(turns);
    assert(synth.published(shared, exhausts, intakes).rpm == shown.word());
    assert(R::decoded(shown.word()) == shown);
}

/// An engine that turns `n` times a minute is read as turning `n` times a minute, up to fourteen
/// units of rounding; and the limiter is shown exactly when that is above 7950.
pub proof fn law_panel_reads_the_turns_per_minute<R: Real>(
    rounding: Rounding<R>,
    synth: SynthView<R>,
    shared: SharedView,
    exhausts: Seq<R>,
    intakes: Seq<R>,
    n: u64,
)
    requires
        rounding.kept(),
        rounding.roomy(),
        faithful_words::<R>(),
        1 <= n <= 9000,
        synth.engine.angular_velocity == speed::<R>(n),
    ensures
        ({
            let shown = R::decoded(synth.published(shared, exhausts, intakes).rpm);
            let m = n as real;
            &&& rounding.is_finite(shown)
            &&& rounding.near(14real, m, rounding.worth(shown))
            &&& n > 7952 ==> limiter_shown(shown)
            &&& n < 7948 ==> !limiter_shown(shown)
        }),
{
    lemma_turns_are_near(rounding);
    let m = n as real;
    let round = 2real * rounding.worth(R::circle());
    let whole = R::fraction(2, 1).spec_mul(R::circle());
    let turns = R::fraction(60, 1).spec_euclidean_or_real_div(whole);
    let pace = whole.spec_euclidean_or_real_div(R::fraction(60, 1));
    let count = R::fraction(n, 1);
    assert(m / 1real == m);
    assert(rounding.in_range(n as real / 1u64 as real));
    assert(rounding.rounds(n as real / 1u64 as real, count));
    assert(rounding.near(1real, m, rounding.worth(count)));
    let p = round / 60real;
    let t = 60real / round;
    lemma_product_is_bounded(m, 1real, 9000real, p, 1real / 10real, 2real / 10real);
    lemma_large_product_is_near(rounding, 1real, m, count, 3real, p, pace);
    let velocity = count.spec_mul(pace);
    lemma_quotient(60real, round);
    assert(p * t == 1real) by {
        assert((round / 60real) * t == (t * round) / 60real) by (nonlinear_arith);
    }
    assert((m * p) * t == m * (p * t)) by (nonlinear_arith);
    assert(m * 1real == m);
    crate::algebra::lemma_quotient_is_positive(60real, round);
    lemma_large_product_is_near(rounding, 7real, m * p, velocity, 4real, t, turns);
    let shown = velocity.spec_mul(turns);
    assert(synth.published(shared, exhausts, intakes).rpm == shown.word());
    assert(R::decoded(shown.word()) == shown);
    let limit = R::fraction(7950, 1);
    assert(rounding.in_range(7950real / 1real));
    assert(rounding.rounds(7950real / 1real, limit));
    assert(rounding.near(1real, 7950real, rounding.worth(limit)));
    lemma_few_units_are_little(rounding, 1real, 7950real, rounding.worth(limit));
    lemma_few_units_are_little(rounding, 14real, m, rounding.worth(shown));
}

/// Fourteen units of a reading of up to 9000 turns are less than a turn.
proof fn lemma_few_units_are_little<R: Real>(rounding: Rounding<R>, i: real, x: real, y: real)
    requires
        0real < rounding.unit <= 1real / 1000000real,
        0real <= i <= 14real,
        0real <= x <= 9000real,
        rounding.near(i, x, y),
    ensures
        x - 2real / 10real < y < x + 2real / 10real,
{
    let u = rounding.unit;
    lemma_product_is_bounded(u, 0real, 1real / 1000000real, x, 0real, 9000real);
    lemma_product_is_bounded(i, 0real, 14real, u * x, 0real, 9real / 1000real);
}

/// The delay of a header in milliseconds, before its imperfection of at most 0.4.
pub open spec fn bank_delay(i: int) -> real {
    15real / 10real + (i / 2) as real * (12real / 10real)
}

proof fn lemma_ratio_is_near<R: Real>(rounding: Rounding<R>, n: u64, d: u64)
    requires
        rounding.kept(),
        0 < n <= 1000,
        0 < d <= 1000,
    ensures
        rounding.is_finite(R::fraction(n, d)),
        rounding.near(1real, n as real / d as real, rounding.worth(R::fraction(n, d))),
{
    let m = n as real;
    let k = d as real;
    let x = m / k;
    lemma_quotient(m, k);
    if x < 1real / 1000real {
        crate::algebra::lemma_times_keeps_strict_order(x, 1real / 1000real, k);
    }
    if x > 1000real {
        crate::algebra::lemma_times_keeps_strict_order(1000real, x, k);
    }
    assert(rounding.in_range(n as real / d as real));
    assert(rounding.rounds(n as real / d as real, R::fraction(n, d)));
}

/// The imperfection of a header is at most 0.4 milliseconds.
proof fn lemma_imperfection_is_small<R: Real>(rounding: Rounding<R>, angle: R)
    requires
        rounding.kept(),
        rounding.bounded_sines(),
        rounding.is_finite(angle),
    ensures
        ({
            let off = angle.sine().spec_mul(R::fraction(4, 10));
            &&& rounding.is_finite(off)
            &&& -(401real / 1000real) <= rounding.worth(off) <= 401real / 1000real
        }),
{
    lemma_ratio_is_near::<R>(rounding, 4, 10);
    let most = R::fraction(4, 10);
    let c = rounding.worth(most);
    lemma_near_is_close(rounding, 1real, 4real / 10real, c);
    let s = rounding.worth(angle.sine());
    lemma_times_keeps_order(s, 1real, c);
    lemma_times_keeps_order(-1real, s, c);
    assert((-1real) * c == -c);
    let off = angle.sine().spec_mul(most);
    assert(rounding.reaches(s * c));
    assert(rounding.uncrossed(s * c, off));
    assert(rounding.is_finite(most.spec_neg()));
    assert(rounding.worth(most.spec_neg()) == -c);
}

proof fn lemma_header_bank_is_near<R: Real>(rounding: Rounding<R>, i: int)
    requires
        rounding.kept(),
        rounding.roomy(),
        0 <= i < MAX_CYLINDERS,
    ensures
        ({
            let bank = R::fraction(15, 10).spec_add(
                R::fraction((i / 2) as u64, 1).spec_mul(R::fraction(12, 10)),
            );
            &&& rounding.is_finite(bank)
            &&& bank_delay(i) - 1real / 100real <= rounding.worth(bank) <= bank_delay(i) + 1real
                / 100real
        }),
{
    let j = (i / 2) as u64;
    let b = j as real;
    assert(b == (i / 2) as real);
    let share = R::fraction(12, 10);
    let count = R::fraction(j, 1);
    let base = R::fraction(15, 10);
    lemma_ratio_is_near::<R>(rounding, 15, 10);
    lemma_ratio_is_near::<R>(rounding, 12, 10);
    lemma_near_is_close(rounding, 1real, 15real / 10real, rounding.worth(base));
    lemma_near_is_close(rounding, 1real, 12real / 10real, rounding.worth(share));
    assert(b / 1real == b);
    assert(rounding.in_range(j as real / 1u64 as real));
    assert(rounding.rounds(j as real / 1u64 as real, count));
    assert(rounding.worth(count) == b);
    let product = count.spec_mul(share);
    let exact = b * rounding.worth(share);
    let s = rounding.worth(share);
    let e = s - 12real / 10real;
    assert(b * s == b * (12real / 10real) + b * e) by (nonlinear_arith)
        requires
            e == s - 12real / 10real,
    ;
    lemma_times_keeps_order(e, 2real / 10000real, b);
    lemma_times_keeps_order(-(2real / 10000real), e, b);
    assert(e * b == b * e) by (nonlinear_arith);
    lemma_product_is_bounded(b, 0real, 7real, s, 1real, 13real / 10real);
    assert(0real <= exact <= 10real);
    if i / 2 == 0 {
        assert(b == 0real);
        assert(0real * s == 0real);
        assert(exact == 0real);
    } else {
        lemma_product_is_bounded(b, 1real, 7real, s, 1real, 13real / 10real);
        assert(exact >= 1real);
    }
    assert(rounding.in_range(exact));
    assert(rounding.rounds(exact, product));
    assert(rounding.near(1real, exact, rounding.worth(product)));
    lemma_near_is_close(rounding, 1real, exact, rounding.worth(product));
    let sum = rounding.worth(base) + rounding.worth(product);
    assert(rounding.in_range(sum));
    let bank = base.spec_add(product);
    assert(rounding.rounds(sum, bank));
    assert(rounding.near(1real, sum, rounding.worth(bank)));
    lemma_near_is_close(rounding, 1real, sum, rounding.worth(bank));
}

/// The header of every cylinder delays its exhaust by 1.5 milliseconds and 1.2 for each pair of
/// cylinders before its own, within 0.42: 0.4 of imperfection and what rounding leaves out, and
/// the fraction of a sample.
pub proof fn law_header_delay_grows_from_pair_to_pair<R: Real>(
    rounding: Rounding<R>,
    synth: SynthView<R>,
    cylinders: usize,
    displacement: R,
    i: int,
)
    requires
        rounding.kept(),
        rounding.roomy(),
        rounding.bounded_sines(),
        rounding.whole_parts(),
        synth.out_of_tune(cylinders, displacement),
        0 <= i < cylinders <= MAX_CYLINDERS,
        rounding.is_finite(synth.sample_rate),
        8000real <= rounding.worth(synth.sample_rate) <= 400000real,
    ensures
        ({
            let line = synth.retuned(cylinders, displacement).header_delays[i];
            let per_ms = rounding.worth(synth.sample_rate) / 1000real;
            &&& line.len() as real <= (bank_delay(i) + 42real / 100real) * per_ms
            &&& (bank_delay(i) - 42real / 100real) * per_ms <= line.len() as real + 1real
        }),
{
    let rate = rounding.worth(synth.sample_rate);
    lemma_header_bank_is_near::<R>(rounding, i);
    lemma_angle_is_finite::<R>(rounding, i);
    let angle = R::fraction(i as u64, 1).spec_mul(R::fraction(1618, 1000));
    lemma_imperfection_is_small(rounding, angle);
    let bank = R::fraction(15, 10).spec_add(
        R::fraction((i / 2) as u64, 1).spec_mul(R::fraction(12, 10)),
    );
    let off = angle.sine().spec_mul(R::fraction(4, 10));
    let ms = bank.spec_add(off);
    let exact = rounding.worth(bank) + rounding.worth(off);
    assert(1real <= exact <= 11real);
    assert(rounding.in_range(exact));
    assert(rounding.rounds(exact, ms));
    assert(rounding.near(1real, exact, rounding.worth(ms)));
    lemma_near_is_close(rounding, 1real, exact, rounding.worth(ms));
    lemma_whole_number_is_exact::<R>(rounding, 1000);
    let thousand = R::fraction(1000, 1);
    let m = rounding.worth(ms);
    let part = m / 1000real;
    assert(rounding.in_range(part));
    let seconds = ms.spec_euclidean_or_real_div(thousand);
    assert(rounding.rounds(part, seconds));
    assert(rounding.near(1real, part, rounding.worth(seconds)));
    assert(rounding.near(0real, rate, rate));
    lemma_product_is_bounded(part, 1real / 10000real, 12real / 1000real, rate, 8000real, 400000real);
    lemma_large_product_is_near(
        rounding,
        1real,
        part,
        seconds,
        0real,
        rate,
        synth.sample_rate,
    );
    let z = rounding.worth(seconds.spec_mul(synth.sample_rate));
    lemma_near_is_close(rounding, 4real, part * rate, z);
    let per_ms = rate / 1000real;
    assert(part * rate == m * per_ms) by (nonlinear_arith)
        requires
            part == m / 1000real,
            per_ms == rate / 1000real,
    ;
    let slack = m / 10000real;
    assert((m + slack) * per_ms == m * per_ms + m * per_ms / 10000real) by (nonlinear_arith)
        requires
            slack == m / 10000real,
    ;
    assert((m - slack) * per_ms == m * per_ms - m * per_ms / 10000real) by (nonlinear_arith)
        requires
            slack == m / 10000real,
    ;
    lemma_times_keeps_order(m + slack, bank_delay(i) + 42real / 100real, per_ms);
    lemma_times_keeps_order(bank_delay(i) - 42real / 100real, m - slack, per_ms);
    let n = seconds.spec_mul(synth.sample_rate).whole();
    assert(n as real <= z < n as real + 1real);
    lemma_times_keeps_order(1real, m - slack, per_ms);
    assert(n >= 1);
    let line = synth.retuned(cylinders, displacement).header_delays[i];
    assert(line.len() == n);
}

proof fn lemma_angle_is_finite<R: Real>(rounding: Rounding<R>, i: int)
    requires
        rounding.kept(),
        rounding.roomy(),
        0 <= i < MAX_CYLINDERS,
    ensures
        rounding.is_finite(R::fraction(i as u64, 1).spec_mul(R::fraction(1618, 1000))),
{
    let n = i as u64;
    let b = n as real;
    let count = R::fraction(n, 1);
    let golden = R::fraction(1618, 1000);
    assert(b / 1real == b);
    assert(rounding.in_range(n as real / 1u64 as real));
    assert(rounding.rounds(n as real / 1u64 as real, count));
    assert(rounding.worth(count) == b);
    assert(rounding.in_range(1618real / 1000real));
    assert(rounding.rounds(1618real / 1000real, golden));
    assert(rounding.near(1real, 1618real / 1000real, rounding.worth(golden)));
    lemma_near_is_close(rounding, 1real, 1618real / 1000real, rounding.worth(golden));
    let g = rounding.worth(golden);
    lemma_product_is_bounded(b, 0real, 16real, g, 0real, 2real);
    assert(rounding.reaches(b * g));
    assert(rounding.uncrossed(b * g, count.spec_mul(golden)));
}

/// Cylinders in pairs that are at least two apart never share a delay: the one further on has the
/// longer header.
pub proof fn law_no_common_echo<R: Real>(
    rounding: Rounding<R>,
    synth: SynthView<R>,
    cylinders: usize,
    displacement: R,
    i: int,
    j: int,
)
    requires
        rounding.kept(),
        rounding.roomy(),
        rounding.bounded_sines(),
        rounding.whole_parts(),
        synth.out_of_tune(cylinders, displacement),
        0 <= i < cylinders <= MAX_CYLINDERS,
        0 <= j < cylinders,
        i / 2 + 2 <= j / 2,
        rounding.is_finite(synth.sample_rate),
        8000real <= rounding.worth(synth.sample_rate) <= 400000real,
    ensures
        ({
            let lines = synth.retuned(cylinders, displacement).header_delays;
            lines[i].len() < lines[j].len()
        }),
{
    law_header_delay_grows_from_pair_to_pair(rounding, synth, cylinders, displacement, i);
    law_header_delay_grows_from_pair_to_pair(rounding, synth, cylinders, displacement, j);
    let per_ms = rounding.worth(synth.sample_rate) / 1000real;
    let a = bank_delay(i) + 42real / 100real;
    let b = bank_delay(j) - 42real / 100real;
    assert((i / 2) as real + 2real <= (j / 2) as real);
    assert(a + 1real <= b);
    lemma_times_keeps_order(a + 1real, b, per_ms);
    assert((a + 1real) * per_ms == a * per_ms + per_ms) by (nonlinear_arith);
}

} // verus!
