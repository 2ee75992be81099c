//! What holds of the engine in every configuration and in every state of its motion.

use vstd::prelude::*;

use crate::engine::{
    Breath, EngineView, StrokeNoise, atmosphere, blank_engine, exhaust_open, flow_sound,
    intake_open, pi_times, sparks, speed,
};
use crate::number::Real;
use crate::premises::{Zeros, double_words, is_word_of, nil, ordered};
use crate::telemetry::{ATMOSPHERE_WORD, MAX_CYLINDERS, ONE_WORD, ZERO_WORD, fresh_state};

verus! {

/// The spark is cut at the rev limit: in an engine that does not turn slower than eight thousand
/// turns per minute no cylinder burns anything. Its stroke is the same at every throttle and for
/// every strength of a combustion.
pub proof fn law_spark_is_cut_at_the_rev_limit<R: Real>(
    engine: EngineView<R>,
    i: int,
    breath: Breath<R>,
    throttle1: R,
    throttle2: R,
    noise: StrokeNoise<R>,
    jitter: R,
)
    requires
        !(engine.angular_velocity < speed::<R>(8000)),
    ensures
        engine.stroke(i, breath, throttle1, noise) == engine.stroke(
            i,
            breath,
            throttle2,
            StrokeNoise { jitter, ..noise },
        ),
{
}

/// A cylinder draws a random number only to some end: while a valve is closed the turbulence of
/// its flow has no bearing on the stroke and the flow is silent, and where the plug does not
/// fire the strength of the combustion has none.
pub proof fn law_closed_valves_are_silent<R: Real>(
    engine: EngineView<R>,
    i: int,
    breath: Breath<R>,
    throttle: R,
    noise: StrokeNoise<R>,
    other: StrokeNoise<R>,
)
    ensures
        ({
            let angle = engine.pose(i).cycle_angle;
            let stroke = engine.stroke(i, breath, throttle, noise);
            &&& !intake_open(angle) ==> {
                &&& stroke.intake_flow == R::fraction(0, 1)
                &&& stroke == engine.stroke(
                    i,
                    breath,
                    throttle,
                    StrokeNoise { intake: other.intake, ..noise },
                )
            }
            &&& !exhaust_open(angle) ==> {
                &&& stroke.exhaust_flow == R::fraction(0, 1)
                &&& stroke == engine.stroke(
                    i,
                    breath,
                    throttle,
                    StrokeNoise { exhaust: other.exhaust, ..noise },
                )
            }
            &&& !sparks(engine.prev_cycle_angle[i], angle, engine.angular_velocity) ==> stroke
                == engine.stroke(
                i,
                breath,
                throttle,
                StrokeNoise { jitter: other.jitter, ..noise },
            )
        }),
{
}

/// A closed cylinder keeps its gas: while both valves are closed and the plug does not fire, the
/// pressure follows the piston alone.
pub proof fn law_closed_cylinder_keeps_its_gas<R: Real>(
    engine: EngineView<R>,
    i: int,
    breath: Breath<R>,
    throttle: R,
    noise: StrokeNoise<R>,
)
    requires
        !intake_open(engine.pose(i).cycle_angle),
        !exhaust_open(engine.pose(i).cycle_angle),
        !sparks(
            engine.prev_cycle_angle[i],
            engine.pose(i).cycle_angle,
            engine.angular_velocity,
        ),
    ensures
        engine.stroke(i, breath, throttle, noise).pressure == engine.compressed(
            i,
            engine.pose(i).volume,
        ),
{
}

/// A plug fires only once when a piston passes the top of its compression: after a step in which
/// a cylinder burns it does not burn in the next one, wherever the piston then stands.
pub proof fn law_plug_fires_once_per_pass<R: Real>(
    engine: EngineView<R>,
    dt: R,
    throttle: R,
    noise: Seq<StrokeNoise<R>>,
    i: int,
    next_cycle_angle: R,
    next_velocity: R,
)
    requires
        ordered::<R>(),
        engine.num_cylinders <= MAX_CYLINDERS,
        0 <= i < engine.num_cylinders,
        sparks(
            engine.prev_cycle_angle[i],
            engine.pose(i).cycle_angle,
            engine.angular_velocity,
        ),
    ensures
        !sparks(
            engine.stepped(dt, throttle, noise).prev_cycle_angle[i],
            next_cycle_angle,
            next_velocity,
        ),
{
    assert(pi_times::<R>(2, 1).spec_le(engine.pose(i).cycle_angle));
}

/// The crank never turns back.
pub proof fn law_crank_never_turns_back<R: Real>(
    engine: EngineView<R>,
    dt: R,
    throttle: R,
    noise: Seq<StrokeNoise<R>>,
)
    requires
        ordered::<R>(),
    ensures
        !(engine.stepped(dt, throttle, noise).angular_velocity < R::fraction(0, 1)),
{
    assert(!R::fraction(0, 1).spec_lt(R::fraction(0, 1)));
}

/// The crank turns by its new velocity, and a thousand turns are taken off once it exceeds them.
pub proof fn law_crank_turns_by_its_new_velocity<R: Real>(
    engine: EngineView<R>,
    dt: R,
    throttle: R,
    noise: Seq<StrokeNoise<R>>,
)
    ensures
        ({
            let after = engine.stepped(dt, throttle, noise);
            let angle = engine.crank_angle + after.angular_velocity * dt;
            let turns = pi_times::<R>(2000, 1);
            after.crank_angle == if turns < angle {
                angle - turns
            } else {
                angle
            }
        }),
{
}

/// Whether two tables of random draws agree on the first `n` cylinders.
pub open spec fn agree<R>(
    noise1: Seq<StrokeNoise<R>>,
    noise2: Seq<StrokeNoise<R>>,
    n: int,
) -> bool {
    forall|i: int| 0 <= i < n ==> noise1[i] == noise2[i]
}

proof fn lemma_sums_need_only_the_cylinders<R: Real>(
    engine: EngineView<R>,
    breath: Breath<R>,
    throttle: R,
    noise1: Seq<StrokeNoise<R>>,
    noise2: Seq<StrokeNoise<R>>,
    n: int,
)
    requires
        agree(noise1, noise2, n),
    ensures
        engine.combustion_torque(breath, throttle, noise1, n) == engine.combustion_torque(
            breath,
            throttle,
            noise2,
            n,
        ),
        engine.inertia(breath, throttle, noise1, n) == engine.inertia(breath, throttle, noise2, n),
    decreases n,
{
    if n > 0 {
        lemma_sums_need_only_the_cylinders(engine, breath, throttle, noise1, noise2, n - 1);
    }
}

/// The random draws for cylinders that the engine does not have play no part in a step.
pub proof fn law_step_needs_draws_of_its_cylinders_only<R: Real>(
    engine: EngineView<R>,
    dt: R,
    throttle: R,
    noise1: Seq<StrokeNoise<R>>,
    noise2: Seq<StrokeNoise<R>>,
)
    requires
        agree(noise1, noise2, engine.num_cylinders as int),
    ensures
        engine.stepped(dt, throttle, noise1) == engine.stepped(dt, throttle, noise2),
        engine.exhaust_sounds(dt, throttle, noise1) == engine.exhaust_sounds(dt, throttle, noise2),
        engine.intake_sounds(dt, throttle, noise1) == engine.intake_sounds(dt, throttle, noise2),
{
    let air = crate::engine::breath(dt, throttle);
    lemma_sums_need_only_the_cylinders(
        engine,
        air,
        throttle,
        noise1,
        noise2,
        engine.num_cylinders as int,
    );
    assert(engine.strokes(dt, throttle, noise1) =~= engine.strokes(dt, throttle, noise2));
    assert(engine.stepped(dt, throttle, noise1) =~= engine.stepped(dt, throttle, noise2));
    assert(engine.exhaust_sounds(dt, throttle, noise1) =~= engine.exhaust_sounds(
        dt,
        throttle,
        noise2,
    ));
    assert(engine.intake_sounds(dt, throttle, noise1) =~= engine.intake_sounds(
        dt,
        throttle,
        noise2,
    ));
}

/// The last configuration counts: what the engine was configured to before leaves no trace.
pub proof fn law_last_configuration_counts<R: Real>(
    engine: EngineView<R>,
    cylinders1: usize,
    scale1: R,
    cylinders2: usize,
    scale2: R,
)
    ensures
        engine.reconfigured(cylinders1, scale1).reconfigured(cylinders2, scale2)
            == engine.reconfigured(cylinders2, scale2),
{
}

/// A configuration leaves no trace of the strokes before it: an engine that is reconfigured
/// after a step is the one that is reconfigured at once, but for the motion of its crank.
pub proof fn law_reconfiguration_empties_the_cylinders<R: Real>(
    engine: EngineView<R>,
    dt: R,
    throttle: R,
    noise: Seq<StrokeNoise<R>>,
    cylinders: usize,
    scale: R,
)
    ensures
        ({
            let ran = engine.stepped(dt, throttle, noise);
            ran.reconfigured(cylinders, scale) == EngineView {
                crank_angle: ran.crank_angle,
                angular_velocity: ran.angular_velocity,
                ..engine.reconfigured(cylinders, scale)
            }
        }),
{
}

/// The words of the shared state are those of the numbers they are named after.
pub proof fn law_words_stand_for_their_numbers()
    ensures
        is_word_of(ZERO_WORD, 0),
        is_word_of(ONE_WORD, 1),
        is_word_of(ATMOSPHERE_WORD, 101325),
{
    vstd::arithmetic::power2::lemma2_to64_rest();
}

/// The fresh shared state agrees with a fresh engine: on the number of cylinders, on the
/// displacement and on the pressure in every cylinder. Its flows and its throttle read zero; so
/// does its speed, though the engine idles.
pub proof fn law_fresh_readings_agree_with_a_fresh_engine<R: Real>(i: int)
    requires
        double_words::<R>(),
        0 <= i < MAX_CYLINDERS,
    ensures
        ({
            let engine = blank_engine::<R>().reconfigured(8, R::fraction(1, 1));
            let shared = fresh_state();
            &&& shared.cylinders == engine.num_cylinders
            &&& R::decoded(shared.displacement) == engine.displacement_scale
            &&& R::decoded(shared.pressures[i]) == engine.cylinder_pressure[i]
            &&& R::decoded(shared.exhaust_flows[i]) == R::fraction(0, 1)
            &&& R::decoded(shared.intake_flows[i]) == R::fraction(0, 1)
            &&& R::decoded(shared.throttle) == R::fraction(0, 1)
            &&& R::decoded(shared.rpm) == R::fraction(0, 1)
        }),
{
    law_words_stand_for_their_numbers();
}

proof fn lemma_sums_need_no_draws<R: Real>(
    engine: EngineView<R>,
    breath: Breath<R>,
    throttle: R,
    noise1: Seq<StrokeNoise<R>>,
    noise2: Seq<StrokeNoise<R>>,
    n: int,
)
    requires
        forall|i: int|
            0 <= i < n ==> !sparks(
                #[trigger] engine.prev_cycle_angle[i],
                engine.pose(i).cycle_angle,
                engine.angular_velocity,
            ),
    ensures
        engine.combustion_torque(breath, throttle, noise1, n) == engine.combustion_torque(
            breath,
            throttle,
            noise2,
            n,
        ),
        engine.inertia(breath, throttle, noise1, n) == engine.inertia(breath, throttle, noise2, n),
    decreases n,
{
    if n > 0 {
        lemma_sums_need_no_draws(engine, breath, throttle, noise1, noise2, n - 1);
        let _ = engine.prev_cycle_angle[n - 1];
    }
}

/// The random draws are heard, but they move the engine only through its combustions: in a step
/// in which no cylinder fires they leave its state alone.
pub proof fn law_draws_move_the_engine_by_combustion_only<R: Real>(
    engine: EngineView<R>,
    dt: R,
    throttle: R,
    noise1: Seq<StrokeNoise<R>>,
    noise2: Seq<StrokeNoise<R>>,
)
    requires
        forall|i: int|
            0 <= i < engine.num_cylinders ==> !sparks(
                #[trigger] engine.prev_cycle_angle[i],
                engine.pose(i).cycle_angle,
                engine.angular_velocity,
            ),
    ensures
        engine.stepped(dt, throttle, noise1) == engine.stepped(dt, throttle, noise2),
{
    let air = crate::engine::breath(dt, throttle);
    lemma_sums_need_no_draws(
        engine,
        air,
        throttle,
        noise1,
        noise2,
        engine.num_cylinders as int,
    );
    assert forall|i: int| 0 <= i < engine.num_cylinders implies {
        let a = #[trigger] engine.strokes(dt, throttle, noise1)[i];
        let b = #[trigger] engine.strokes(dt, throttle, noise2)[i];
        &&& a.pressure == b.pressure
        &&& a.volume == b.volume
        &&& a.cycle_angle == b.cycle_angle
    } by {
        let _ = engine.prev_cycle_angle[i];
    }
    assert(engine.stepped(dt, throttle, noise1) =~= engine.stepped(dt, throttle, noise2));
}

/// How fast the speed of the crank changes in a step.
pub open spec fn acceleration<R: Real>(
    engine: EngineView<R>,
    dt: R,
    throttle: R,
    noise: Seq<StrokeNoise<R>>,
) -> R {
    let air = crate::engine::breath(dt, throttle);
    let n = engine.num_cylinders as int;
    engine.total_torque(engine.combustion_torque(air, throttle, noise, n)) / engine.inertia(
        air,
        throttle,
        noise,
        n,
    )
}

/// Whether the crank moves within its bounds: its angle and its speed are finite, it does not
/// turn back and has not made a thousand turns.
pub open spec fn crank_in_bounds<R: Real>(zeros: Zeros<R>, engine: EngineView<R>) -> bool {
    &&& zeros.is_finite(engine.angular_velocity)
    &&& zeros.is_unsigned(engine.angular_velocity)
    &&& zeros.is_unsigned(engine.crank_angle)
    &&& !(engine.angular_velocity < R::fraction(0, 1))
    &&& !(pi_times::<R>(2000, 1) < engine.crank_angle)
}

/// Whether cylinder `i` and its draws are finite: its volume, its pressure, and by how much it
/// differs from the pressures outside.
pub open spec fn cylinder_in_bounds<R: Real>(
    zeros: Zeros<R>,
    engine: EngineView<R>,
    i: int,
    breath: Breath<R>,
    noise: StrokeNoise<R>,
) -> bool {
    let pressure = engine.cylinder_pressure[i];
    &&& zeros.is_finite(engine.pose(i).volume)
    &&& !nil(engine.pose(i).volume)
    &&& zeros.is_finite(pressure)
    &&& zeros.is_unsigned(pressure)
    &&& zeros.is_finite(pressure - breath.intake_pressure)
    &&& zeros.is_finite(pressure - atmosphere::<R>())
    &&& zeros.is_finite(noise.intake)
    &&& zeros.is_finite(noise.exhaust)
}

proof fn lemma_no_time_no_breath<R: Real>(zeros: Zeros<R>, throttle: R)
    requires
        zeros.kept(),
    ensures
        crate::engine::breath(R::fraction(0, 1), throttle).intake_rate == R::fraction(0, 1),
        crate::engine::breath(R::fraction(0, 1), throttle).exhaust_rate == R::fraction(0, 1),
{
    let dt = R::fraction(0, 1);
    let slow = R::fraction(2, 1000);
    let fast = R::fraction(5, 10000);
    assert(nil(dt.spec_neg()));
    assert(nil(dt.spec_neg().spec_euclidean_or_real_div(slow)));
    assert(nil(dt.spec_neg().spec_euclidean_or_real_div(fast)));
    assert(R::fraction(1, 1).spec_sub(R::fraction(1, 1)) == R::fraction(0, 1));
}

proof fn lemma_no_flow_no_sound<R: Real>(zeros: Zeros<R>, flow: R, depth: R, noise: R)
    requires
        zeros.kept(),
        nil(flow),
        zeros.is_finite(depth),
        zeros.is_finite(noise),
    ensures
        nil(flow_sound(flow, depth, noise)),
{
    let raw = flow.spec_mul(R::fraction(1, 100000));
    assert(nil(raw));
    assert(nil(raw.magnitude()));
    assert(nil(raw.magnitude().spec_mul(depth)));
    assert(nil(raw.magnitude().spec_mul(depth).spec_mul(noise)));
}

/// Without time a cylinder that has just been where it is does nothing.
proof fn lemma_no_time_no_stroke<R: Real>(
    zeros: Zeros<R>,
    engine: EngineView<R>,
    i: int,
    throttle: R,
    noise: StrokeNoise<R>,
)
    requires
        zeros.kept(),
        ordered::<R>(),
        engine.prev_volume[i] == Some(engine.pose(i).volume),
        engine.prev_cycle_angle[i] == engine.pose(i).cycle_angle,
        cylinder_in_bounds(
            zeros,
            engine,
            i,
            crate::engine::breath(R::fraction(0, 1), throttle),
            noise,
        ),
    ensures
        ({
            let air = crate::engine::breath(R::fraction(0, 1), throttle);
            let stroke = engine.stroke(i, air, throttle, noise);
            &&& stroke.pressure == engine.cylinder_pressure[i]
            &&& stroke.volume == engine.pose(i).volume
            &&& stroke.cycle_angle == engine.pose(i).cycle_angle
            &&& nil(stroke.intake_flow)
            &&& nil(stroke.exhaust_flow)
        }),
{
    let zero = R::fraction(0, 1);
    let air = crate::engine::breath(zero, throttle);
    let p = engine.cylinder_pressure[i];
    let volume = engine.pose(i).volume;
    let angle = engine.pose(i).cycle_angle;
    lemma_no_time_no_breath(zeros, throttle);
    assert(volume.spec_euclidean_or_real_div(volume) == R::fraction(1, 1));
    assert(engine.compressed(i, volume) == p);
    let inflow = p.spec_sub(air.intake_pressure).spec_mul(zero);
    let outflow = p.spec_sub(atmosphere::<R>()).spec_mul(zero);
    assert(nil(inflow));
    assert(nil(outflow));
    assert(p.spec_sub(inflow) == p);
    assert(p.spec_sub(outflow) == p);
    lemma_no_flow_no_sound(zeros, inflow, R::fraction(8, 10), noise.intake);
    lemma_no_flow_no_sound(zeros, outflow, R::fraction(5, 10), noise.exhaust);
    assert(!sparks(angle, angle, engine.angular_velocity)) by {
        if pi_times::<R>(2, 1).spec_le(angle) {
            assert(!angle.spec_lt(pi_times::<R>(2, 1)));
        }
    }
}

/// Without time the crank stays where it is.
proof fn lemma_no_time_no_motion<R: Real>(
    zeros: Zeros<R>,
    engine: EngineView<R>,
    throttle: R,
    noise: Seq<StrokeNoise<R>>,
)
    requires
        zeros.kept(),
        crank_in_bounds(zeros, engine),
        zeros.is_finite(acceleration(engine, R::fraction(0, 1), throttle, noise)),
    ensures
        engine.stepped(R::fraction(0, 1), throttle, noise).angular_velocity
            == engine.angular_velocity,
        engine.stepped(R::fraction(0, 1), throttle, noise).crank_angle == engine.crank_angle,
{
    let zero = R::fraction(0, 1);
    let gain = acceleration(engine, zero, throttle, noise).spec_mul(zero);
    assert(nil(gain));
    assert(engine.angular_velocity.spec_add(gain) == engine.angular_velocity);
    let turn = engine.angular_velocity.spec_mul(zero);
    assert(nil(turn));
    assert(engine.crank_angle.spec_add(turn) == engine.crank_angle);
}

/// No time means no flow, no compression and no motion: once an engine has made a step of no
/// time, a second one, at whatever throttle, changes nothing about it and is silent.
pub proof fn law_second_step_of_no_time_changes_nothing<R: Real>(
    zeros: Zeros<R>,
    engine: EngineView<R>,
    throttle1: R,
    throttle2: R,
    noise1: Seq<StrokeNoise<R>>,
    noise2: Seq<StrokeNoise<R>>,
)
    requires
        zeros.kept(),
        ordered::<R>(),
        engine.num_cylinders <= MAX_CYLINDERS,
        crank_in_bounds(zeros, engine),
        zeros.is_finite(acceleration(engine, R::fraction(0, 1), throttle1, noise1)),
        ({
            let once = engine.stepped(R::fraction(0, 1), throttle1, noise1);
            &&& zeros.is_finite(acceleration(once, R::fraction(0, 1), throttle2, noise2))
            &&& forall|i: int|
                0 <= i < engine.num_cylinders ==> cylinder_in_bounds(
                    zeros,
                    once,
                    i,
                    crate::engine::breath(R::fraction(0, 1), throttle2),
                    #[trigger] noise2[i],
                )
        }),
    ensures
        ({
            let once = engine.stepped(R::fraction(0, 1), throttle1, noise1);
            &&& once.stepped(R::fraction(0, 1), throttle2, noise2) == once
            &&& forall|i: int|
                0 <= i < MAX_CYLINDERS ==> {
                    &&& nil(
                        #[trigger] once.exhaust_sounds(R::fraction(0, 1), throttle2, noise2)[i],
                    )
                    &&& nil(
                        #[trigger] once.intake_sounds(R::fraction(0, 1), throttle2, noise2)[i],
                    )
                }
        }),
{
    let zero = R::fraction(0, 1);
    let air = crate::engine::breath(zero, throttle2);
    let once = engine.stepped(zero, throttle1, noise1);
    let twice = once.stepped(zero, throttle2, noise2);
    lemma_no_time_no_motion(zeros, engine, throttle1, noise1);
    lemma_no_time_no_motion(zeros, once, throttle2, noise2);
    assert forall|i: int| 0 <= i < once.num_cylinders implies {
        let stroke = #[trigger] once.strokes(zero, throttle2, noise2)[i];
        &&& stroke.pressure == once.cylinder_pressure[i]
        &&& Some(stroke.volume) == once.prev_volume[i]
        &&& stroke.cycle_angle == once.prev_cycle_angle[i]
        &&& nil(stroke.intake_flow)
        &&& nil(stroke.exhaust_flow)
    } by {
        assert(once.pose(i) == engine.pose(i));
        let _ = noise2[i];
        lemma_no_time_no_stroke(zeros, once, i, throttle2, noise2[i]);
    }
    assert(twice =~= once);
}

} // verus!
