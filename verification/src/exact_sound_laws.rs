//! What the pipes, the headers and the output stage do, in exact arithmetic.

use vstd::prelude::*;

use crate::algebra::lemma_quotient;
use crate::dsp::{dot, impulse};
use crate::engine::{StrokeNoise, blank_engine};
use crate::exact::{Exact, distance};
use crate::exact_engine_laws::series;
use crate::number::Real;
use crate::synth::{SynthView, total, untuned};
use crate::telemetry::{MAX_CYLINDERS, SharedView};

verus! {

/// What the low-pass behind an impulse response was fed at tap `i`, told by the taps: each tap
/// takes three tenths of the way from the one before to what is fed.
pub open spec fn fed(before: real, tap: real) -> real {
    before + (tap - before) * 10real / 3real
}

proof fn lemma_halves_add_up(n: real, r: real, e: real)
    ensures
        n * e * (1real / 2real) + r * e * (1real / 2real) == (n + r) * e / 2real,
{
    assert((n + r) * e == n * e + r * e) by (nonlinear_arith);
}

/// A pipe answers with noise and a resonance that die away together: at tap `i` the low-pass is
/// fed the mean of the noise and of a cosine of the resonance frequency, times an envelope that
/// falls to its `e`-th part within the decay time.
pub proof fn law_pipe_rings_and_dies_away<R: Real>(
    exact: Exact<R>,
    sample_rate: R,
    resonance_freq: R,
    decay_speed: R,
    noise: Seq<R>,
    i: int,
)
    requires
        exact.kept(),
        0 <= i <= u64::MAX,
        exact.worth(sample_rate) != 0real,
        exact.worth(decay_speed) != 0real,
    ensures
        ({
            let before = impulse(sample_rate, resonance_freq, decay_speed, noise, i);
            let tap = impulse(sample_rate, resonance_freq, decay_speed, noise, i + 1);
            let swing = exact.cosine(
                i as real * 2real * exact.pi() * exact.worth(resonance_freq) / exact.worth(
                    sample_rate,
                ),
            );
            let envelope = exact.exponential((-(i as real)) / exact.worth(decay_speed));
            &&& i == 0 ==> exact.worth(before) == 0real
            &&& fed(exact.worth(before), exact.worth(tap)) == (exact.worth(noise[i]) + swing)
                * envelope / 2real
        }),
{
    let before = impulse(sample_rate, resonance_freq, decay_speed, noise, i);
    let tap = impulse(sample_rate, resonance_freq, decay_speed, noise, i + 1);
    let x = i as real;
    assert((i as u64) as real == x);
    assert(x / 1real == x);
    assert(2real / 1real == 2real);
    assert(0real / 1real == 0real);
    let swing = exact.cosine(
        x * 2real * exact.pi() * exact.worth(resonance_freq) / exact.worth(sample_rate),
    );
    let envelope = exact.exponential((-x) / exact.worth(decay_speed));
    lemma_halves_add_up(exact.worth(noise[i]), swing, envelope);
    let target = (exact.worth(noise[i]) + swing) * envelope / 2real;
    assert(exact.worth(tap) == exact.worth(before) + 3real / 10real * (target - exact.worth(
        before,
    )));
}

/// The envelope dies away exponentially: what a pipe without noise and without a swing is fed at
/// tap `i + j` is twice the product of what it is fed at the taps `i` and `j`.
pub proof fn law_envelope_is_exponential<R: Real>(
    exact: Exact<R>,
    sample_rate: R,
    resonance_freq: R,
    decay_speed: R,
    noise: Seq<R>,
    i: int,
    j: int,
)
    requires
        exact.kept(),
        0 <= i,
        0 <= j,
        i + j < noise.len(),
        i + j <= u64::MAX,
        exact.worth(sample_rate) != 0real,
        exact.worth(decay_speed) > 0real,
        exact.worth(resonance_freq) == 0real,
        exact.worth(noise[i]) == 0real,
        exact.worth(noise[j]) == 0real,
        exact.worth(noise[i + j]) == 0real,
    ensures
        ({
            let tap = |k: int|
                exact.worth(impulse(sample_rate, resonance_freq, decay_speed, noise, k));
            fed(tap(i + j), tap(i + j + 1)) == 2real * (fed(tap(i), tap(i + 1)) * fed(
                tap(j),
                tap(j + 1),
            ))
        }),
{
    lemma_cosine_starts_at_one(exact);
    law_pipe_rings_and_dies_away(exact, sample_rate, resonance_freq, decay_speed, noise, i);
    law_pipe_rings_and_dies_away(exact, sample_rate, resonance_freq, decay_speed, noise, j);
    law_pipe_rings_and_dies_away(exact, sample_rate, resonance_freq, decay_speed, noise, i + j);
    let d = exact.worth(decay_speed);
    let x = i as real;
    let y = j as real;
    let pi = exact.pi();
    let rate = exact.worth(sample_rate);
    assert((i + j) as real == x + y);
    let f = exact.worth(resonance_freq);
    lemma_no_frequency_no_swing(x, pi, f, rate);
    lemma_no_frequency_no_swing(y, pi, f, rate);
    lemma_no_frequency_no_swing(x + y, pi, f, rate);
    let a = exact.exponential((-x) / d);
    let b = exact.exponential((-y) / d);
    lemma_quotients_add_up(x, y, d);
    assert(exact.grows_exponentially((-x) / d, (-y) / d));
    assert((a / 2real) * (b / 2real) == a * b / 4real) by (nonlinear_arith);
    let tap = |k: int| exact.worth(impulse(sample_rate, resonance_freq, decay_speed, noise, k));
    assert(fed(tap(i), tap(i + 1)) == a / 2real);
    assert(fed(tap(j), tap(j + 1)) == b / 2real);
    let sum = (i + j) as real;
    let c = exact.exponential((-sum) / d);
    assert(c == a * b);
    let swing = exact.cosine(sum * 2real * pi * f / rate);
    assert(swing == 1real);
    let heard = exact.worth(noise[i + j]);
    assert((heard + swing) * c == c) by (nonlinear_arith)
        requires
            heard == 0real,
            swing == 1real,
    ;
    assert(fed(tap(i + j), tap(i + j + 1)) == c / 2real);
}

proof fn lemma_cosine_starts_at_one<R: Real>(exact: Exact<R>)
    requires
        exact.kept(),
    ensures
        exact.cosine(0real) == 1real,
{
    let pi = exact.pi();
    assert(exact.runs_round(pi, 0real));
    let a = exact.cosine(pi);
    let b = exact.cosine(0real);
    let c = exact.sine(pi);
    let d = exact.sine(0real);
    assert(pi + 0real == pi);
    assert(a * b == -b) by (nonlinear_arith)
        requires
            a == -1real,
    ;
    assert(c * d == 0real) by (nonlinear_arith)
        requires
            c == 0real,
    ;
}

proof fn lemma_no_frequency_no_swing(x: real, pi: real, f: real, rate: real)
    requires
        f == 0real,
        rate != 0real,
    ensures
        x * 2real * pi * f / rate == 0real,
{
    let z = x * 2real * pi;
    assert(z * f == 0real) by (nonlinear_arith)
        requires
            f == 0real,
    ;
    let y = z * f;
    assert(y / rate == 0real) by (nonlinear_arith)
        requires
            y == 0real,
            rate != 0real,
    ;
}

proof fn lemma_quotients_add_up(x: real, y: real, d: real)
    requires
        d > 0real,
    ensures
        (-(x + y)) / d == (-x) / d + (-y) / d,
{
    lemma_quotient(-(x + y), d);
    lemma_quotient(-x, d);
    lemma_quotient(-y, d);
    let p = (-x) / d;
    let q = (-y) / d;
    assert((p + q) * d == p * d + q * d) by (nonlinear_arith);
    crate::algebra::lemma_cancel((-(x + y)) / d, p + q, d);
}

proof fn lemma_total_is_the_sum<R: Real>(exact: Exact<R>, xs: Seq<R>, n: int)
    requires
        exact.kept(),
    ensures
        exact.worth(total(xs, n)) == series(|i: int| exact.worth(xs[i]), n),
    decreases n,
{
    assert(0real / 1real == 0real);
    let f = |i: int| exact.worth(xs[i]);
    if n > 0 {
        lemma_total_is_the_sum(exact, xs, n - 1);
        assert(f(n - 1) == exact.worth(xs[n - 1]));
        assert(series(f, n) == series(f, n - 1) + f(n - 1));
    } else {
        assert(series(f, n) == 0real);
    }
}

proof fn lemma_dot_is_the_sum<R: Real>(exact: Exact<R>, xs: Seq<R>, ys: Seq<R>, n: int)
    requires
        exact.kept(),
    ensures
        exact.worth(dot(xs, ys, n)) == series(
            |i: int| exact.worth(xs[i]) * exact.worth(ys[i]),
            n,
        ),
    decreases n,
{
    assert(0real / 1real == 0real);
    let f = |i: int| exact.worth(xs[i]) * exact.worth(ys[i]);
    if n > 0 {
        lemma_dot_is_the_sum(exact, xs, ys, n - 1);
        assert(f(n - 1) == exact.worth(xs[n - 1]) * exact.worth(ys[n - 1]));
        assert(series(f, n) == series(f, n - 1) + f(n - 1));
    } else {
        assert(series(f, n) == 0real);
    }
}

/// What a pipe answers: the inputs that it remembers, each weighted by the tap of its age.
pub open spec fn answer<R: Real>(exact: Exact<R>, heard: Seq<R>, ir: Seq<R>) -> real {
    series(|k: int| exact.worth(heard[k]) * exact.worth(ir[k]), ir.len() as int)
}

proof fn lemma_series_is_pointwise(f: spec_fn(int) -> real, g: spec_fn(int) -> real, n: int)
    requires
        forall|i: int| 0 <= i < n ==> #[trigger] f(i) == g(i),
    ensures
        series(f, n) == series(g, n),
    decreases n,
{
    if n > 0 {
        lemma_series_is_pointwise(f, g, n - 1);
    }
}

/// What the pipes hear in a frame: the exhaust pipe the sum of what comes out of the headers of
/// all cylinders, the intake box the sum of the intake flows of all cylinders. Either remembers
/// it before what it heard earlier, and every header takes the exhaust of its cylinder in.
pub proof fn law_pipes_hear_all_cylinders<R: Real>(
    exact: Exact<R>,
    synth: SynthView<R>,
    throttle: R,
    noise: Seq<StrokeNoise<R>>,
)
    requires
        exact.kept(),
        synth.header_delays.len() == synth.engine.num_cylinders,
        synth.engine.num_cylinders <= MAX_CYLINDERS,
        synth.exhaust_pipe.heard.len() > 0,
        synth.intake_box.heard.len() > 0,
    ensures
        ({
            let after = synth.advanced(throttle, noise);
            let n = synth.engine.num_cylinders as int;
            let exhausts = synth.engine.exhaust_sounds(synth.dt, throttle, noise);
            let intakes = synth.engine.intake_sounds(synth.dt, throttle, noise);
            &&& exact.worth(after.exhaust_pipe.heard[0]) == series(
                |i: int| exact.worth(synth.header_delays[i][0]),
                n,
            )
            &&& exact.worth(after.intake_box.heard[0]) == series(
                |i: int| exact.worth(intakes[i]),
                n,
            )
            &&& after.exhaust_pipe.heard.drop_first() == synth.exhaust_pipe.heard.drop_last()
            &&& after.intake_box.heard.drop_first() == synth.intake_box.heard.drop_last()
            &&& after.exhaust_pipe.ir == synth.exhaust_pipe.ir
            &&& after.intake_box.ir == synth.intake_box.ir
            &&& after.header_delays.len() == n
            &&& forall|i: int|
                0 <= i < n ==> #[trigger] after.header_delays[i]
                    == synth.header_delays[i].drop_first().push(exhausts[i])
            &&& after.engine == synth.engine.stepped(synth.dt, throttle, noise)
            &&& after.dt == synth.dt
            &&& after.sample_rate == synth.sample_rate
        }),
{
    let after = synth.advanced(throttle, noise);
    let n = synth.engine.num_cylinders as int;
    let intakes = synth.engine.intake_sounds(synth.dt, throttle, noise);
    let arriving = synth.arriving();
    lemma_total_is_the_sum(exact, arriving, n);
    lemma_total_is_the_sum(exact, intakes, n);
    let f = |i: int| exact.worth(arriving[i]);
    let g = |i: int| exact.worth(synth.header_delays[i][0]);
    assert forall|i: int| 0 <= i < n implies #[trigger] f(i) == g(i) by {
        assert(arriving[i] == synth.header_delays[i].first());
    }
    lemma_series_is_pointwise(f, g, n);
    assert(after.exhaust_pipe.heard.drop_first() =~= synth.exhaust_pipe.heard.drop_last());
    assert(after.intake_box.heard.drop_first() =~= synth.intake_box.heard.drop_last());
}

/// What the output stage makes of a frame. The answer of the intake box is heard at a fifth of
/// its strength at closed throttle and in full at open throttle. Of the mix the constant part is
/// taken away; it is driven into saturation, three times at closed throttle and eighteen times at
/// open throttle, divided by the running peak, and four fifths of it are played, within the full
/// scale.
pub proof fn law_output_stage<R: Real>(
    exact: Exact<R>,
    synth: SynthView<R>,
    throttle: R,
    noise: Seq<StrokeNoise<R>>,
)
    requires
        exact.kept(),
        exact.tangent(3real + exact.worth(throttle) * 15real) != 0real,
        exact.worth(synth.advanced(throttle, noise).agc.peak) != 0real,
    ensures
        ({
            let after = synth.advanced(throttle, noise);
            let opened = exact.worth(throttle);
            let x = exact.worth(after.dc_block.x_prev);
            let y = exact.worth(after.dc_block.y_prev);
            let drive = 3real + opened * 15real;
            let driven = exact.tangent(y * drive) / exact.tangent(drive);
            let peak = exact.worth(synth.agc.peak);
            let played = driven / exact.worth(after.agc.peak) * (8real / 10real);
            &&& x == answer(exact, after.exhaust_pipe.heard, synth.exhaust_pipe.ir) + answer(
                exact,
                after.intake_box.heard,
                synth.intake_box.ir,
            ) * (2real / 10real + opened * (8real / 10real))
            &&& y == x - exact.worth(synth.dc_block.x_prev) + 995real / 1000real * exact.worth(
                synth.dc_block.y_prev,
            )
            &&& exact.worth(after.agc.peak) == if distance(driven) > peak {
                distance(driven)
            } else {
                peak * (999real / 1000real) + 1real / 1000real
            }
            &&& exact.worth(synth.sample(throttle, noise)) == if played < -1real {
                -1real
            } else if played > 1real {
                1real
            } else {
                played
            }
        }),
{
    let after = synth.advanced(throttle, noise);
    assert(1real / 1real == 1real);
    assert(3real / 1real == 3real);
    assert(15real / 1real == 15real);
    lemma_dot_is_the_sum(
        exact,
        after.exhaust_pipe.heard,
        synth.exhaust_pipe.ir,
        synth.exhaust_pipe.ir.len() as int,
    );
    lemma_dot_is_the_sum(
        exact,
        after.intake_box.heard,
        synth.intake_box.ir,
        synth.intake_box.ir.len() as int,
    );
}

/// The pipes of a new sound engine: an exhaust pipe that resonates at 150 hertz and dies away
/// within 120 samples, and an intake box that resonates at 240 hertz and dies away within 15. All
/// is silent, and a step takes as long as a sample.
pub proof fn law_new_pipes<R: Real>(
    exact: Exact<R>,
    sample_rate: R,
    exhaust_noise: Seq<R>,
    intake_noise: Seq<R>,
    i: int,
)
    requires
        exact.kept(),
        0 <= i <= u64::MAX,
        exact.worth(sample_rate) > 0real,
    ensures
        ({
            let synth = untuned(sample_rate, exhaust_noise, intake_noise);
            let rate = exact.worth(sample_rate);
            let before = |ir: Seq<R>|
                if i == 0 {
                    0real
                } else {
                    exact.worth(ir[i - 1])
                };
            let swing = |f: real|
                exact.cosine(i as real * 2real * exact.pi() * f / rate);
            let envelope = |time: real| exact.exponential((-(i as real)) / time);
            let pipe = synth.exhaust_pipe;
            let chamber = synth.intake_box;
            &&& exact.worth(synth.dt) * rate == 1real
            &&& synth.sample_rate == sample_rate
            &&& synth.engine == blank_engine::<R>().reconfigured(8, R::fraction(1, 1))
            &&& synth.engine.num_cylinders == 8
            &&& exact.worth(synth.engine.displacement_scale) == 1real
            &&& exact.worth(synth.agc.peak) == 1real
            &&& exact.worth(synth.dc_block.x_prev) == 0real
            &&& exact.worth(synth.dc_block.y_prev) == 0real
            &&& synth.header_delays.len() == 0
            &&& pipe.ir.len() == exhaust_noise.len() && pipe.heard.len() == exhaust_noise.len()
            &&& chamber.ir.len() == intake_noise.len() && chamber.heard.len() == intake_noise.len()
            &&& i < exhaust_noise.len() ==> {
                &&& exact.worth(pipe.heard[i]) == 0real
                &&& fed(before(pipe.ir), exact.worth(pipe.ir[i])) == (exact.worth(
                    exhaust_noise[i],
                ) + swing(150real)) * envelope(120real) / 2real
            }
            &&& i < intake_noise.len() ==> {
                &&& exact.worth(chamber.heard[i]) == 0real
                &&& fed(before(chamber.ir), exact.worth(chamber.ir[i])) == (exact.worth(intake_noise[i])
                    + swing(240real)) * envelope(15real) / 2real
            }
        }),
{
    assert(1real / 1real == 1real);
    assert(0real / 1real == 0real);
    assert(150real / 1real == 150real);
    assert(120real / 1real == 120real);
    assert(240real / 1real == 240real);
    assert(15real / 1real == 15real);
    lemma_quotient(1real, exact.worth(sample_rate));
    law_pipe_rings_and_dies_away(
        exact,
        sample_rate,
        R::fraction(150, 1),
        R::fraction(120, 1),
        exhaust_noise,
        i,
    );
    law_pipe_rings_and_dies_away(
        exact,
        sample_rate,
        R::fraction(240, 1),
        R::fraction(15, 1),
        intake_noise,
        i,
    );
}

/// How many samples the header of cylinder `i` should delay its exhaust, before the fraction of a
/// sample is left out: 1.5 milliseconds, 1.2 for every pair of cylinders before its own, and an
/// imperfection of up to 0.4.
pub open spec fn header_delay<R: Real>(exact: Exact<R>, i: int, rate: real) -> real {
    (15real / 10real + (i / 2) as real * (12real / 10real) + exact.sine(
        i as real * (1618real / 1000real),
    ) * (4real / 10real)) / 1000real * rate
}

/// A change of settings gives every cylinder a header of its own delay, and nothing is under way
/// in it yet; the cylinders and the displacement are those that were asked for.
pub proof fn law_headers_have_delays_of_their_own<R: Real>(
    exact: Exact<R>,
    synth: SynthView<R>,
    cylinders: usize,
    displacement: R,
    i: int,
)
    requires
        exact.kept(),
        synth.out_of_tune(cylinders, displacement),
        0 <= i < cylinders <= MAX_CYLINDERS,
        0real <= header_delay(exact, i, exact.worth(synth.sample_rate)) < 4294967295real,
    ensures
        ({
            let tuned = synth.retuned(cylinders, displacement);
            let line = tuned.header_delays[i];
            let delay = header_delay(exact, i, exact.worth(synth.sample_rate));
            &&& tuned.header_delays.len() == cylinders
            &&& if delay < 1real {
                line.len() == 1
            } else {
                line.len() as real <= delay < line.len() as real + 1real
            }
            &&& forall|k: int|
                0 <= k < line.len() ==> exact.worth(#[trigger] line[k]) == 0real
        }),
{
    let j = (i / 2) as u64;
    assert(j as real == (i / 2) as real);
    assert(j as real / 1real == j as real);
    assert((i as u64) as real == i as real);
    assert(i as real / 1real == i as real);
    assert(1000real / 1real == 1000real);
    assert(0real / 1real == 0real);
}

/// The sound engine runs at the settings that were asked for: it is built anew exactly when one
/// of them has changed, or when there are no headers yet.
pub proof fn law_settings_are_obeyed<R: Real>(
    exact: Exact<R>,
    synth: SynthView<R>,
    cylinders: usize,
    displacement: R,
)
    requires
        exact.kept(),
    ensures
        ({
            let tuned = synth.retuned(cylinders, displacement);
            let changed = cylinders != synth.engine.num_cylinders || exact.worth(displacement)
                != exact.worth(synth.engine.displacement_scale) || synth.header_delays.len() == 0;
            &&& tuned.engine.num_cylinders == cylinders
            &&& exact.worth(tuned.engine.displacement_scale) == exact.worth(displacement)
            &&& synth.out_of_tune(cylinders, displacement) == changed
            &&& !changed ==> tuned == synth
            &&& changed ==> tuned.engine == synth.engine.reconfigured(cylinders, displacement)
            &&& tuned.exhaust_pipe == synth.exhaust_pipe
            &&& tuned.intake_box == synth.intake_box
            &&& tuned.agc == synth.agc
            &&& tuned.dc_block == synth.dc_block
            &&& tuned.dt == synth.dt
            &&& tuned.sample_rate == synth.sample_rate
        }),
{
}

/// Whether a word is that of a number worth `x`.
pub open spec fn holds<R: Real>(exact: Exact<R>, word: u64, x: real) -> bool {
    exists|a: R| word == #[trigger] a.word() && exact.worth(a) == x
}

/// The published speed is that of the engine, in turns per minute, and the published pressures
/// and flows are those of the cylinders. The settings are left alone, and so is what is not a
/// cylinder.
pub proof fn law_readings_are_those_of_the_engine<R: Real>(
    exact: Exact<R>,
    synth: SynthView<R>,
    shared: SharedView,
    exhausts: Seq<R>,
    intakes: Seq<R>,
)
    requires
        exact.kept(),
    ensures
        ({
            let out = synth.published(shared, exhausts, intakes);
            &&& holds(
                exact,
                out.rpm,
                exact.worth(synth.engine.angular_velocity) * (60real / (2real * exact.pi())),
            )
            &&& out.throttle == shared.throttle
            &&& out.cylinders == shared.cylinders
            &&& out.displacement == shared.displacement
            &&& out.pressures.len() == shared.pressures.len()
            &&& out.exhaust_flows.len() == shared.exhaust_flows.len()
            &&& out.intake_flows.len() == shared.intake_flows.len()
            &&& forall|i: int|
                0 <= i < shared.pressures.len() ==> #[trigger] out.pressures[i] == if i
                    < shared.cylinders {
                    synth.engine.cylinder_pressure[i].word()
                } else {
                    shared.pressures[i]
                }
            &&& forall|i: int|
                0 <= i < shared.exhaust_flows.len() ==> #[trigger] out.exhaust_flows[i] == if i
                    < shared.cylinders {
                    exhausts[i].word()
                } else {
                    shared.exhaust_flows[i]
                }
            &&& forall|i: int|
                0 <= i < shared.intake_flows.len() ==> #[trigger] out.intake_flows[i] == if i
                    < shared.cylinders {
                    intakes[i].word()
                } else {
                    shared.intake_flows[i]
                }
        }),
{
    let turns = R::fraction(60, 1).spec_euclidean_or_real_div(
        R::fraction(2, 1).spec_mul(R::circle()),
    );
    let speed = synth.engine.angular_velocity.spec_mul(turns);
    assert(60real / 1real == 60real);
    assert(2real / 1real == 2real);
    assert(exact.worth(speed) == exact.worth(synth.engine.angular_velocity) * (60real / (2real
        * exact.pi())));
    assert(synth.published(shared, exhausts, intakes).rpm == speed.word());
}

/// A block of sound is rendered at the settings and the throttle of the shared state, and what is
/// published at its end are the speed and the pressures after the last frame and the flows in it.
pub proof fn law_block_is_rendered_and_published<R: Real>(
    synth: SynthView<R>,
    shared: SharedView,
    noise: Seq<[StrokeNoise<R>; MAX_CYLINDERS]>,
)
    requires
        noise.len() > 0,
    ensures
        ({
            let (end, samples, out) = synth.rendered(shared, noise);
            let tuned = synth.retuned(shared.cylinders, R::decoded(shared.displacement));
            let throttle = R::decoded(shared.throttle);
            let last = tuned.after(throttle, noise.drop_last());
            &&& samples.len() == noise.len()
            &&& end == last.advanced(throttle, noise.last()@)
            &&& samples.last() == last.sample(throttle, noise.last()@)
            &&& samples.drop_last() == tuned.samples(throttle, noise.drop_last())
            &&& noise.len() == 1 ==> last == tuned
            &&& out == end.published(
                shared,
                last.engine.exhaust_sounds(tuned.dt, throttle, noise.last()@),
                last.engine.intake_sounds(tuned.dt, throttle, noise.last()@),
            )
        }),
{
    let (end, samples, out) = synth.rendered(shared, noise);
    let tuned = synth.retuned(shared.cylinders, R::decoded(shared.displacement));
    let throttle = R::decoded(shared.throttle);
    let n = noise.len() as int;
    assert(noise.take(n - 1) =~= noise.drop_last());
    let earlier = noise.drop_last();
    assert forall|i: int| 0 <= i < n - 1 implies samples[i] == tuned.samples(
        throttle,
        earlier,
    )[i] by {
        assert(noise.take(i) =~= earlier.take(i));
    }
    assert(samples.drop_last() =~= tuned.samples(throttle, earlier));
}

} // verus!
