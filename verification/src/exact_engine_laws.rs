//! What the engine does, in exact arithmetic.

use vstd::prelude::*;

use crate::algebra::{
    lemma_divide_product, lemma_quotient, lemma_quotient_is_positive, lemma_square, lemma_swap, lemma_times_keeps_order,
    lemma_times_keeps_strict_order,
};
use crate::engine::{
    EngineView, StrokeNoise, atmosphere, blank_engine, breath, exhaust_open, intake_open, sparks,
    speed,
};
use crate::exact::{Exact, distance, is_rest};
use crate::firing::phase;
use crate::number::Real;
use crate::telemetry::MAX_CYLINDERS;

verus! {

/// How far a piston stands from the axis of the crank, told by the volume above it.
pub open spec fn piston_height<R: Real>(exact: Exact<R>, engine: EngineView<R>, i: int) -> real {
    exact.worth(engine.crank_radius) + exact.worth(engine.rod_length) - (exact.worth(
        engine.pose(i).volume,
    ) - exact.worth(engine.clearance_volume)) / exact.worth(engine.piston_area)
}

/// The length of the rod, seen along the cylinder and across it.
proof fn lemma_rod_is_longer_than_the_throw(r: real, l: real, s: real, c: real)
    requires
        0real <= r < l,
        s * s + c * c == 1real,
    ensures
        r * r * s * s == (r * s) * (r * s),
        (r * s) * (r * s) < l * l,
{
    assert(r * r * s * s == (r * s) * (r * s)) by (nonlinear_arith);
    assert((r * s) * (r * s) == (s * s) * (r * r)) by (nonlinear_arith);
    lemma_square(r);
    lemma_square(c);
    lemma_times_keeps_order(s * s, 1real, r * r);
    lemma_times_keeps_order(r, l, r);
    lemma_times_keeps_strict_order(r, l, l);
    lemma_swap(l, r);
}

proof fn lemma_slope_of_the_piston(r: real, s: real, c: real, root: real, q: real)
    requires
        q * root == r * r * s * c,
    ensures
        ((-r) * s - q) * root == -((r * s) * (r * c + root)),
{
    let a = r * s;
    let b = r * c;
    let m = (-r) * s;
    assert((-r) * s == -(r * s)) by (nonlinear_arith);
    assert((m - q) * root == m * root - q * root) by (nonlinear_arith);
    assert((-a) * root == -(a * root)) by (nonlinear_arith);
    assert(a * (b + root) == a * b + a * root) by (nonlinear_arith);
    assert((r * s) * (r * c) == r * r * s * c) by (nonlinear_arith);
}

/// A piston hangs on its rod: the crank pin runs round its circle, and the distance from the pin
/// to the piston is the length of the rod, with the piston above the pin. Its position changes
/// with the angle as the rod makes it.
pub proof fn law_piston_hangs_on_its_rod<R: Real>(exact: Exact<R>, engine: EngineView<R>, i: int)
    requires
        exact.kept(),
        exact.worth(engine.piston_area) > 0real,
        0real <= exact.worth(engine.crank_radius) < exact.worth(engine.rod_length),
    ensures
        ({
            let theta = exact.worth(engine.crank_angle) + exact.worth(engine.phase_offsets[i]);
            let r = exact.worth(engine.crank_radius);
            let l = exact.worth(engine.rod_length);
            let across = r * exact.sine(theta);
            let along = piston_height(exact, engine, i) - r * exact.cosine(theta);
            let slope = exact.worth(engine.pose(i).dx_dtheta);
            &&& along > 0real
            &&& along * along + across * across == l * l
            &&& slope * along == -(across * piston_height(exact, engine, i))
        }),
{
    let theta = exact.worth(engine.crank_angle) + exact.worth(engine.phase_offsets[i]);
    let r = exact.worth(engine.crank_radius);
    let l = exact.worth(engine.rod_length);
    let s = exact.sine(theta);
    let c = exact.cosine(theta);
    let area = exact.worth(engine.piston_area);
    assert(exact.runs_round(theta, 0real));
    let angle = engine.crank_angle.spec_add(engine.phase_offsets[i]);
    let crank = engine.crank_radius;
    let rod = engine.rod_length;
    let inner = rod.spec_mul(rod).spec_sub(
        crank.spec_mul(crank).spec_mul(angle.sine()).spec_mul(angle.sine()),
    );
    lemma_rod_is_longer_than_the_throw(r, l, s, c);
    assert(exact.worth(inner) == l * l - r * r * s * s);
    let root = exact.worth(inner.square_root());
    assert(root >= 0real && root * root == exact.worth(inner));
    assert(0real * 0real == 0real);
    assert(root > 0real);
    let x = r * c + root;
    let pose = engine.pose(i);
    assert(exact.worth(pose.volume) == exact.worth(engine.clearance_volume) + area * ((r + l)
        - x));
    lemma_divide_product(area, (r + l) - x);
    assert(piston_height(exact, engine, i) == x);
    let q = (r * r * s * c) / root;
    assert(exact.worth(pose.dx_dtheta) == (-r) * s - q);
    lemma_quotient(r * r * s * c, root);
    lemma_slope_of_the_piston(r, s, c, root, q);
}

/// Whether `a` is `k` whole periods beyond `b`.
pub open spec fn periods_apart(k: int, a: real, b: real, period: real) -> bool {
    a == k as real * period + b
}

/// The angle within the cycle is what is left of the crank angle and the offset once whole cycles,
/// of two turns each, are taken off.
pub proof fn law_cycle_angle_is_the_rest_of_the_cycle<R: Real>(
    exact: Exact<R>,
    engine: EngineView<R>,
    i: int,
)
    requires
        exact.kept(),
    ensures
        0real <= exact.worth(engine.pose(i).cycle_angle) < 4real * exact.pi(),
        exists|k: int| #[trigger]
            periods_apart(
                k,
                exact.worth(engine.crank_angle) + exact.worth(engine.phase_offsets[i]),
                exact.worth(engine.pose(i).cycle_angle),
                4real * exact.pi(),
            ),
{
    let theta = engine.crank_angle.spec_add(engine.phase_offsets[i]);
    let cycle = R::fraction(4, 1).spec_mul(R::circle());
    let rest = theta.remainder(cycle);
    assert(4real / 1real == 4real);
    assert(exact.worth(cycle) == 4real * exact.pi());
    assert(exact.leaves_rest(theta, cycle, rest));
    let k = choose|k: int| #[trigger]
        is_rest(k, exact.worth(theta), exact.worth(cycle), exact.worth(rest));
    let q = 4real * exact.pi();
    if exact.worth(rest) < 0real {
        let j = k - 1;
        let x = k as real;
        assert((x - 1real) * q == x * q - q) by (nonlinear_arith);
        assert(j as real == x - 1real);
        assert(periods_apart(j, exact.worth(theta), exact.worth(engine.pose(i).cycle_angle), q));
    } else {
        assert(periods_apart(k, exact.worth(theta), exact.worth(engine.pose(i).cycle_angle), q));
    }
}

/// Two turns of the crank bring every cylinder back to where it was: the angle within the cycle,
/// and with it the valves and the spark, is the same.
pub proof fn law_two_turns_make_a_cycle<R: Real>(
    exact: Exact<R>,
    engine: EngineView<R>,
    later: EngineView<R>,
    i: int,
    cycles: int,
)
    requires
        exact.kept(),
        later.phase_offsets[i] == engine.phase_offsets[i],
        exact.worth(later.crank_angle) == exact.worth(engine.crank_angle) + cycles as real * (4real
            * exact.pi()),
    ensures
        exact.worth(later.pose(i).cycle_angle) == exact.worth(engine.pose(i).cycle_angle),
{
    law_cycle_angle_is_the_rest_of_the_cycle(exact, engine, i);
    law_cycle_angle_is_the_rest_of_the_cycle(exact, later, i);
    let q = 4real * exact.pi();
    let a = exact.worth(engine.crank_angle) + exact.worth(engine.phase_offsets[i]);
    let b = exact.worth(later.crank_angle) + exact.worth(later.phase_offsets[i]);
    let c = exact.worth(engine.pose(i).cycle_angle);
    let d = exact.worth(later.pose(i).cycle_angle);
    let k = choose|k: int| #[trigger] periods_apart(k, a, c, q);
    let j = choose|j: int| #[trigger] periods_apart(j, b, d, q);
    lemma_rest_is_unique(c, d, q, j - k - cycles, k, j, cycles);
}

proof fn lemma_rest_is_unique(c: real, d: real, q: real, m: int, k: int, j: int, n: int)
    requires
        0real < q,
        0real <= c < q,
        0real <= d < q,
        m == j - k - n,
        k as real * q + c + n as real * q == j as real * q + d,
    ensures
        c == d,
{
    let x = k as real;
    let y = j as real;
    let z = n as real;
    let w = m as real;
    assert(w == y - x - z);
    assert((y - x - z) * q == y * q - x * q - z * q) by (nonlinear_arith);
    assert(w * q == c - d);
    if m >= 1 {
        lemma_times_keeps_order(1real, w, q);
    } else if m <= -1 {
        lemma_times_keeps_order(w, -1real, q);
        assert((-1real) * q == -q);
    } else {
        assert(w == 0real);
        assert(0real * q == 0real);
    }
}

/// The intake valve is open from shortly before the top of the cycle, at 3.9 pi, until shortly
/// after the bottom of the intake stroke, at 1.05 pi; the exhaust valve from shortly before the
/// bottom of the power stroke, at 2.9 pi, until shortly after the top, at 0.1 pi.
pub proof fn law_valves_open_at_their_angles<R: Real>(exact: Exact<R>, angle: R)
    requires
        exact.kept(),
    ensures
        ({
            let turned = exact.worth(angle);
            let pi = exact.pi();
            &&& intake_open(angle) == (turned < 105real / 100real * pi || turned > 39real / 10real
                * pi)
            &&& exhaust_open(angle) == (turned > 29real / 10real * pi || turned < 1real / 10real
                * pi)
        }),
{
}

/// The plug fires when the cylinder passes the top of its compression, at 2 pi, as long as the
/// engine turns at less than 8000 turns per minute.
pub proof fn law_plug_fires_at_the_top_below_the_limit<R: Real>(
    exact: Exact<R>,
    before: R,
    angle: R,
    velocity: R,
)
    requires
        exact.kept(),
    ensures
        sparks(before, angle, velocity) == ({
            &&& exact.worth(before) < 2real * exact.pi() <= exact.worth(angle)
            &&& exact.worth(velocity) < 8000real * (2real * exact.pi() / 60real)
        }),
{
}

/// A speed is so many turns, of two pi each, in a minute.
pub proof fn law_speed_is_turns_per_minute<R: Real>(exact: Exact<R>, rpm: u64)
    requires
        exact.kept(),
    ensures
        exact.worth(speed::<R>(rpm)) * 60real == rpm as real * (2real * exact.pi()),
{
    let x = rpm as real;
    let y = 2real * exact.pi();
    assert(x / 1real == x);
    assert(exact.worth(speed::<R>(rpm)) == x * (y / 60real));
    assert((x * (y / 60real)) * 60real == x * ((y / 60real) * 60real)) by (nonlinear_arith);
    lemma_quotient(y, 60real);
}

/// What is left of a pressure after `time`, while the difference from the pressure outside dies
/// away with the time constant `pace`.
pub open spec fn evened_out<R: Real>(
    exact: Exact<R>,
    inside: real,
    outside: real,
    time: real,
    pace: real,
) -> real {
    outside + (inside - outside) * exact.exponential((-time) / pace)
}

proof fn lemma_flow_evens_out(inside: real, outside: real, e: real)
    ensures
        inside - (inside - outside) * (1real - e) == outside + (inside - outside) * e,
        (inside - outside) * (1real - e) == inside - (outside + (inside - outside) * e),
{
    let d = inside - outside;
    assert(d * (1real - e) == d - d * e) by (nonlinear_arith);
}

/// The pressure in a cylinder once its gas has followed the piston.
pub open spec fn squeezed<R: Real>(exact: Exact<R>, engine: EngineView<R>, i: int) -> real {
    let p = exact.worth(engine.cylinder_pressure[i]);
    match engine.prev_volume[i] {
        Some(v) => p * exact.power(
            exact.worth(v) / exact.worth(engine.pose(i).volume),
            14real / 10real,
        ),
        None => p,
    }
}

/// What a cylinder does in one step. Its gas follows the piston adiabatically. Through an open
/// intake valve the pressure evens out with that in the intake, a fifth of the atmosphere at
/// closed throttle and all of it at open throttle, within two milliseconds; through an open
/// exhaust valve with the atmosphere, within half a millisecond. A combustion multiplies what is
/// there. The flows sound in proportion to the pressure that they took away, and the pressure
/// above the atmosphere pushes the piston.
pub proof fn law_cylinder_breathes_and_burns<R: Real>(
    exact: Exact<R>,
    engine: EngineView<R>,
    i: int,
    dt: R,
    throttle: R,
    noise: StrokeNoise<R>,
)
    requires
        exact.kept(),
        exact.worth(engine.pose(i).volume) > 0real,
        engine.prev_volume[i] matches Some(v) ==> exact.worth(v) > 0real,
    ensures
        ({
            let stroke = engine.stroke(i, breath(dt, throttle), throttle, noise);
            let angle = engine.pose(i).cycle_angle;
            let opened = exact.worth(throttle);
            let outside = 101325real;
            let p1 = squeezed(exact, engine, i);
            let p2 = if intake_open(angle) {
                evened_out(
                    exact,
                    p1,
                    outside * (2real / 10real + opened * (8real / 10real)),
                    exact.worth(dt),
                    2real / 1000real,
                )
            } else {
                p1
            };
            let p3 = if exhaust_open(angle) {
                evened_out(exact, p2, outside, exact.worth(dt), 5real / 10000real)
            } else {
                p2
            };
            let p4 = if sparks(engine.prev_cycle_angle[i], angle, engine.angular_velocity) {
                p3 * (1real + 20real * (1real / 10real + opened * (9real / 10real)) * exact.worth(
                    noise.jitter,
                ))
            } else {
                p3
            };
            let suck = (p1 - p2) * (1real / 100000real);
            let pulse = (p2 - p3) * (1real / 100000real);
            let slope = exact.worth(engine.pose(i).dx_dtheta);
            &&& stroke.cycle_angle == angle
            &&& stroke.volume == engine.pose(i).volume
            &&& exact.worth(stroke.pressure) == p4
            &&& exact.worth(stroke.intake_flow) == if intake_open(angle) {
                suck + distance(suck) * (8real / 10real) * exact.worth(noise.intake)
            } else {
                0real
            }
            &&& exact.worth(stroke.exhaust_flow) == if exhaust_open(angle) {
                pulse + distance(pulse) * (5real / 10real) * exact.worth(noise.exhaust)
            } else {
                0real
            }
            &&& exact.worth(stroke.torque) == -((p4 - outside) * exact.worth(engine.piston_area))
                * slope
            &&& exact.worth(stroke.inertia) == exact.worth(engine.piston_mass) * (slope * slope)
        }),
{
    let v1 = exact.worth(engine.pose(i).volume);
    let opened = exact.worth(throttle);
    let vacuum = 101325real * (2real / 10real + opened * (8real / 10real));
    let p1 = squeezed(exact, engine, i);
    assert(101325real / 1real == 101325real);
    assert(exact.worth(atmosphere::<R>()) == 101325real);
    assert(exact.worth(breath(dt, throttle).intake_pressure) == vacuum);
    let e1 = exact.exponential((-exact.worth(dt)) / (2real / 1000real));
    let e2 = exact.exponential((-exact.worth(dt)) / (5real / 10000real));
    assert(exact.worth(breath(dt, throttle).intake_rate) == 1real - e1);
    assert(exact.worth(breath(dt, throttle).exhaust_rate) == 1real - e2);
    if engine.prev_volume[i] is Some {
        let v = engine.prev_volume[i]->0;
        lemma_quotient_is_positive(exact.worth(v), v1);
    }
    assert(exact.worth(engine.compressed(i, engine.pose(i).volume)) == p1);
    lemma_flow_evens_out(p1, vacuum, e1);
    let p2 = if intake_open(engine.pose(i).cycle_angle) {
        vacuum + (p1 - vacuum) * e1
    } else {
        p1
    };
    lemma_flow_evens_out(p2, 101325real, e2);
}

/// The gas of a closed cylinder keeps the product of its pressure and the 1.4th power of its
/// volume, wherever the piston goes.
pub proof fn law_closed_gas_is_adiabatic<R: Real>(
    exact: Exact<R>,
    engine: EngineView<R>,
    i: int,
    dt: R,
    throttle: R,
    noise: StrokeNoise<R>,
    before: R,
)
    requires
        exact.kept(),
        exact.worth(engine.pose(i).volume) > 0real,
        exact.worth(before) > 0real,
        engine.prev_volume[i] == Some(before),
        !intake_open(engine.pose(i).cycle_angle),
        !exhaust_open(engine.pose(i).cycle_angle),
        !sparks(
            engine.prev_cycle_angle[i],
            engine.pose(i).cycle_angle,
            engine.angular_velocity,
        ),
    ensures
        ({
            let stroke = engine.stroke(i, breath(dt, throttle), throttle, noise);
            let k = 14real / 10real;
            exact.worth(stroke.pressure) * exact.power(exact.worth(stroke.volume), k)
                == exact.worth(engine.cylinder_pressure[i]) * exact.power(exact.worth(before), k)
        }),
{
    law_cylinder_breathes_and_burns(exact, engine, i, dt, throttle, noise);
    let k = 14real / 10real;
    let v0 = exact.worth(before);
    let v1 = exact.worth(engine.pose(i).volume);
    let p0 = exact.worth(engine.cylinder_pressure[i]);
    let q = v0 / v1;
    lemma_quotient_is_positive(v0, v1);
    lemma_quotient(v0, v1);
    assert(exact.multiplies_powers(q, v1, 0real, k));
    let x = exact.power(q, k);
    let y = exact.power(v1, k);
    assert((p0 * x) * y == p0 * (x * y)) by (nonlinear_arith);
}

/// The sum of the first `n` numbers of a series.
pub open spec fn series(f: spec_fn(int) -> real, n: int) -> real
    decreases n,
{
    if n <= 0 {
        0real
    } else {
        series(f, n - 1) + f(n - 1)
    }
}

/// How the gas in cylinder `i`, at the pressure that it has in `after`, pushes the crank.
pub open spec fn push<R: Real>(
    exact: Exact<R>,
    engine: EngineView<R>,
    after: EngineView<R>,
    i: int,
) -> real {
    -((exact.worth(after.cylinder_pressure[i]) - 101325real) * exact.worth(engine.piston_area))
        * exact.worth(engine.pose(i).dx_dtheta)
}

/// How much cylinder `i` weighs on the crank.
pub open spec fn weight<R: Real>(exact: Exact<R>, engine: EngineView<R>, i: int) -> real {
    let slope = exact.worth(engine.pose(i).dx_dtheta);
    exact.worth(engine.piston_mass) * (slope * slope)
}

proof fn lemma_pushes_add_up<R: Real>(
    exact: Exact<R>,
    engine: EngineView<R>,
    dt: R,
    throttle: R,
    noise: Seq<StrokeNoise<R>>,
    n: int,
)
    requires
        exact.kept(),
        0 <= n <= engine.num_cylinders <= MAX_CYLINDERS,
    ensures
        ({
            let after = engine.stepped(dt, throttle, noise);
            let b = breath(dt, throttle);
            &&& exact.worth(engine.combustion_torque(b, throttle, noise, n)) == series(
                |i: int| push(exact, engine, after, i),
                n,
            )
            &&& exact.worth(engine.inertia(b, throttle, noise, n)) == exact.worth(
                engine.base_crank_inertia,
            ) * (engine.num_cylinders as real) * exact.worth(engine.displacement_scale) + series(
                |i: int| weight(exact, engine, i),
                n,
            )
        }),
    decreases n,
{
    let after = engine.stepped(dt, throttle, noise);
    let b = breath(dt, throttle);
    let count = engine.num_cylinders as real;
    assert(count / 1real == count);
    assert(exact.worth(engine.count()) == count);
    assert(0real / 1real == 0real);
    let pushes = |i: int| push(exact, engine, after, i);
    let weights = |i: int| weight(exact, engine, i);
    if n > 0 {
        lemma_pushes_add_up(exact, engine, dt, throttle, noise, n - 1);
        let stroke = engine.stroke(n - 1, b, throttle, noise[n - 1]);
        assert(engine.strokes(dt, throttle, noise)[n - 1] == stroke);
        assert(after.cylinder_pressure[n - 1] == stroke.pressure);
        assert(exact.worth(atmosphere::<R>()) == 101325real);
        assert(exact.worth(stroke.torque) == pushes(n - 1));
        assert(exact.worth(stroke.inertia) == weights(n - 1));
        assert(series(pushes, n) == series(pushes, n - 1) + pushes(n - 1));
        assert(series(weights, n) == series(weights, n - 1) + weights(n - 1));
    } else {
        assert(series(pushes, n) == 0real);
        assert(series(weights, n) == 0real);
    }
}

/// How the crank moves in one step. The gas in all cylinders pushes it, friction holds it in
/// proportion to its speed and drag to the square of it, and below a thousand turns per minute
/// the idle control pushes in proportion to what is missing; crank and pistons resist with their
/// inertia. It never turns back, and it turns by its new velocity, with a thousand turns taken
/// off once it exceeds them.
pub proof fn law_torque_turns_the_crank<R: Real>(
    exact: Exact<R>,
    engine: EngineView<R>,
    dt: R,
    throttle: R,
    noise: Seq<StrokeNoise<R>>,
)
    requires
        exact.kept(),
        engine.num_cylinders <= MAX_CYLINDERS,
        exact.worth(engine.base_crank_inertia) * (engine.num_cylinders as real) * exact.worth(
            engine.displacement_scale,
        ) + series(|i: int| weight(exact, engine, i), engine.num_cylinders as int) != 0real,
    ensures
        ({
            let after = engine.stepped(dt, throttle, noise);
            let n = engine.num_cylinders as real;
            let size = exact.worth(engine.displacement_scale);
            let v = exact.worth(engine.angular_velocity);
            let time = exact.worth(dt);
            let gas = series(
                |i: int| push(exact, engine, after, i),
                engine.num_cylinders as int,
            );
            let friction = -(2real / 100real) * n * size * v;
            let drag = -(1real / 10000real) * n * size * v * distance(v);
            let missing = 2000real * exact.pi() / 60real - v;
            let idle = if missing > 0real {
                missing * 5real * n * size
            } else {
                0real
            };
            let inertia = exact.worth(engine.base_crank_inertia) * n * size + series(
                |i: int| weight(exact, engine, i),
                engine.num_cylinders as int,
            );
            let free = v + (gas + friction + drag + idle) / inertia * time;
            let turned = exact.worth(engine.crank_angle) + exact.worth(after.angular_velocity)
                * time;
            &&& exact.worth(after.angular_velocity) == if free < 0real {
                0real
            } else {
                free
            }
            &&& exact.worth(after.crank_angle) == if turned > 2000real * exact.pi() {
                turned - 2000real * exact.pi()
            } else {
                turned
            }
        }),
{
    let n = engine.num_cylinders as int;
    let count = engine.num_cylinders as real;
    lemma_pushes_add_up(exact, engine, dt, throttle, noise, n);
    assert(count / 1real == count);
    assert(exact.worth(engine.count()) == count);
    assert(0real / 1real == 0real);
    assert(5real / 1real == 5real);
    assert(60real / 1real == 60real);
    let b = breath(dt, throttle);
    let combustion = engine.combustion_torque(b, throttle, noise, n);
    let v = exact.worth(engine.angular_velocity);
    let size = exact.worth(engine.displacement_scale);
    let missing = 2000real * exact.pi() / 60real - v;
    let idle = if missing > 0real {
        missing * 5real * count * size
    } else {
        0real
    };
    assert(exact.worth(engine.total_torque(combustion)) == exact.worth(combustion) + -(2real
        / 100real) * count * size * v + -(1real / 10000real) * count * size * v * distance(v)
        + idle);
}

/// A step leaves the build and the configuration of the engine alone and takes note of where the
/// pistons stand; what is not a cylinder of the engine is left alone and silent.
pub proof fn law_step_moves_pistons_only<R: Real>(
    engine: EngineView<R>,
    dt: R,
    throttle: R,
    noise: Seq<StrokeNoise<R>>,
)
    requires
        engine.num_cylinders <= MAX_CYLINDERS,
    ensures
        ({
            let after = engine.stepped(dt, throttle, noise);
            let exhausts = engine.exhaust_sounds(dt, throttle, noise);
            let intakes = engine.intake_sounds(dt, throttle, noise);
            let n = engine.num_cylinders as int;
            &&& after.same_base(engine)
            &&& after.num_cylinders == engine.num_cylinders
            &&& after.displacement_scale == engine.displacement_scale
            &&& after.crank_radius == engine.crank_radius
            &&& after.rod_length == engine.rod_length
            &&& after.piston_mass == engine.piston_mass
            &&& after.piston_area == engine.piston_area
            &&& after.clearance_volume == engine.clearance_volume
            &&& after.phase_offsets == engine.phase_offsets
            &&& exhausts.len() == MAX_CYLINDERS
            &&& intakes.len() == MAX_CYLINDERS
            &&& forall|i: int|
                0 <= i < n ==> {
                    let stroke = engine.stroke(i, breath(dt, throttle), throttle, noise[i]);
                    &&& #[trigger] after.prev_volume[i] == Some(engine.pose(i).volume)
                    &&& after.prev_cycle_angle[i] == engine.pose(i).cycle_angle
                    &&& after.cylinder_pressure[i] == stroke.pressure
                    &&& exhausts[i] == stroke.exhaust_flow
                    &&& intakes[i] == stroke.intake_flow
                }
            &&& forall|i: int|
                n <= i < MAX_CYLINDERS ==> {
                    &&& #[trigger] after.prev_volume[i] == engine.prev_volume[i]
                    &&& after.prev_cycle_angle[i] == engine.prev_cycle_angle[i]
                    &&& after.cylinder_pressure[i] == engine.cylinder_pressure[i]
                    &&& exhausts[i] == R::fraction(0, 1)
                    &&& intakes[i] == R::fraction(0, 1)
                }
        }),
{
}

/// The engine of a displacement: lengths grow with its cube root and the masses of the pistons
/// with itself; the piston is a disc as wide as the bore, and the clearance makes up for the
/// compression ratio.
pub proof fn law_displacement_gives_the_measures<R: Real>(
    exact: Exact<R>,
    engine: EngineView<R>,
    cylinders: usize,
    scale: R,
)
    requires
        exact.kept(),
        exact.worth(engine.compression_ratio) > 1real,
    ensures
        ({
            let built = engine.reconfigured(cylinders, scale);
            let growth = exact.worth(scale.cube_root());
            let half = exact.worth(engine.base_bore) * growth / 2real;
            let radius = exact.worth(built.crank_radius);
            &&& growth * growth * growth == exact.worth(scale)
            &&& built.num_cylinders == cylinders
            &&& built.displacement_scale == scale
            &&& radius == exact.worth(engine.base_crank_radius) * growth
            &&& exact.worth(built.rod_length) == exact.worth(engine.base_rod_length) * growth
            &&& exact.worth(built.piston_area) == exact.pi() * (half * half)
            &&& exact.worth(built.clearance_volume) * (exact.worth(engine.compression_ratio)
                - 1real) == exact.worth(built.piston_area) * (2real * radius)
            &&& exact.worth(built.piston_mass) == exact.worth(engine.base_piston_mass)
                * exact.worth(scale)
            &&& built.crank_angle == engine.crank_angle
            &&& built.angular_velocity == engine.angular_velocity
            &&& built.same_base(engine)
        }),
{
    let built = engine.reconfigured(cylinders, scale);
    let swept = exact.worth(built.piston_area) * (2real * exact.worth(built.crank_radius));
    let k = exact.worth(engine.compression_ratio) - 1real;
    assert(1real / 1real == 1real);
    assert(2real / 1real == 2real);
    lemma_quotient(swept, k);
}

/// The measures that every engine is built from, before its displacement scales them: in metres,
/// kilograms and turns per minute.
pub proof fn law_base_measures<R: Real>(exact: Exact<R>)
    requires
        exact.kept(),
    ensures
        ({
            let engine = blank_engine::<R>();
            &&& exact.worth(engine.base_crank_radius) == 4real / 100real
            &&& exact.worth(engine.base_rod_length) == 13real / 100real
            &&& exact.worth(engine.base_crank_inertia) == 15real / 100real
            &&& exact.worth(engine.base_piston_mass) == 4real / 10real
            &&& exact.worth(engine.base_bore) == 8real / 100real
            &&& exact.worth(engine.compression_ratio) == 9real
            &&& exact.worth(engine.crank_angle) == 0real
            &&& exact.worth(engine.angular_velocity) * 60real == 1000real * (2real * exact.pi())
        }),
{
    law_speed_is_turns_per_minute(exact, 1000);
    assert(9real / 1real == 9real);
    assert(0real / 1real == 0real);
}

/// The offset of a cylinder is its phase in the firing order, in thousandths of pi; without an
/// order of their own the cylinders follow each other at even distances round the cycle. There is
/// no offset where there is no cylinder.
pub proof fn law_offsets_are_those_of_the_firing_order<R: Real>(
    exact: Exact<R>,
    engine: EngineView<R>,
    cylinders: usize,
    scale: R,
    i: int,
)
    requires
        exact.kept(),
        1 <= cylinders <= MAX_CYLINDERS,
        0 <= i < MAX_CYLINDERS,
    ensures
        ({
            let offsets = engine.reconfigured(cylinders, scale).phase_offsets;
            let offset = exact.worth(offsets[i]);
            let n = cylinders as int;
            &&& offsets.len() == MAX_CYLINDERS
            &&& if i >= n {
                offset == 0real
            } else if n == 4 {
                offset == seq![0int, 3000, 1000, 2000][i] as real / 1000real * exact.pi()
            } else if n == 6 {
                offset == seq![0int, 3333, 1333, 2666, 666, 2000][i] as real / 1000real
                    * exact.pi()
            } else if n == 8 {
                offset == seq![0int, 3500, 1500, 1000, 2500, 2000, 3000, 500][i] as real
                    / 1000real * exact.pi()
            } else if n == 10 {
                offset == seq![0int, 3600, 1600, 1200, 2800, 2000, 3200, 2400, 800, 400][i] as real
                    / 1000real * exact.pi()
            } else if n == 12 {
                offset == seq![
                    0int,
                    3666,
                    1333,
                    2333,
                    666,
                    3000,
                    1666,
                    2666,
                    333,
                    2000,
                    1000,
                    3333,
                ][i] as real / 1000real * exact.pi()
            } else {
                offset == i as real * (4real / (n as real)) * exact.pi()
            }
        }),
{
    let n = cylinders as real;
    assert(0real / 1real == 0real);
    assert(4real / 1real == 4real);
    assert(n / 1real == n);
    assert((i as u64) as real == i as real);
    assert(i as real / 1real == i as real);
    assert((cylinders as u64) as real == n);
    let offsets = engine.reconfigured(cylinders, scale).phase_offsets;
    if i < cylinders {
        assert(offsets[i] == phase::<R>(cylinders, i).spec_mul(R::circle()));
    }
}

} // verus!
