//! What callers get back: laws on whatever a call may return.

use vstd::prelude::*;

use crate::controls::Pedal;
use crate::display::{
    CylinderRow, Panel, cylinder_rows, picture_pause, speed_gauge_text, throttle_gauge_text,
};
use crate::dsp::{AutoGain, DcBlocker, HeaderDelay};
use crate::engine::{Breath, EngineSolver, draw_breath};
use crate::exact::Exact;
use crate::exact_panel_laws::is_filled;
use crate::number::{Real, deterministic};
use crate::synth::{frame_count, spread};
use crate::telemetry::{MAX_CYLINDERS, SharedEngineState};

verus! {

/// A picture and the pause after it take 33 milliseconds together, unless the picture alone takes
/// as long.
pub proof fn law_pictures_are_paced(elapsed: u128, pause: Option<u64>)
    requires
        call_ensures(picture_pause, (elapsed,), pause),
    ensures
        match pause {
            Some(rest) => rest > 0 && elapsed + rest == 33_000_000,
            None => elapsed >= 33_000_000,
        },
{
}

/// The frames cover the output, and no frame lies wholly beyond it.
pub proof fn law_frames_cover_the_output(len: usize, channels: usize, frames: usize)
    requires
        channels > 0,
        call_ensures(frame_count, (len, channels), frames),
    ensures
        len <= frames * channels < len + channels,
{
    let n = channels as int;
    let m = len + n - 1;
    vstd::arithmetic::div_mod::lemma_fundamental_div_mod(m, n);
    assert(n * (m / n) == (m / n) * n) by (nonlinear_arith);
    assert(0 <= m % n < n);
}

/// Every channel of a frame carries the same sample, the samples come in their order, and every
/// sample is heard.
pub proof fn law_channels_carry_the_frames<T: Copy>(
    samples: &Vec<T>,
    channels: usize,
    len: usize,
    data: Vec<T>,
    frame: int,
    channel: int,
)
    requires
        channels > 0,
        samples@.len() == (len + channels - 1) / (channels as int),
        call_ensures(spread::<T>, (samples, channels, len), data),
        0 <= frame,
        0 <= channel < channels,
        frame * channels + channel < len,
    ensures
        data@.len() == len,
        data@[frame * channels + channel] == samples@[frame],
{
    let n = channels as int;
    let j = frame * n + channel;
    vstd::arithmetic::div_mod::lemma_fundamental_div_mod_converse(j, n, frame, channel);
    assert(0 <= frame * n) by (nonlinear_arith)
        requires
            0 <= frame,
            0 < n,
    ;
}

/// A released pedal, a level gain and a silent filter are what everything starts with.
pub proof fn law_everything_starts_at_rest<R: Real>(
    exact: Exact<R>,
    pedal: Pedal<R>,
    gain: AutoGain<R>,
    blocker: DcBlocker<R>,
)
    requires
        exact.kept(),
        deterministic::<R>(),
        call_ensures(Pedal::<R>::new, (), pedal),
        call_ensures(AutoGain::<R>::new, (), gain),
        call_ensures(DcBlocker::<R>::new, (), blocker),
    ensures
        exact.worth(pedal.target_throttle) == 0real,
        exact.worth(pedal.actual_throttle) == 0real,
        exact.worth(gain.peak) == 1real,
        exact.worth(blocker.x_prev) == 0real,
        exact.worth(blocker.y_prev) == 0real,
{
    assert(0real / 1real == 0real);
    assert(1real / 1real == 1real);
}

/// A new engine has eight cylinders of unit displacement, stands at the start of its turn and
/// turns a thousand times a minute.
pub proof fn law_new_engine_idles<R: Real>(exact: Exact<R>, engine: EngineSolver<R>)
    requires
        exact.kept(),
        deterministic::<R>(),
        call_ensures(EngineSolver::<R>::new, (), engine),
    ensures
        engine.num_cylinders == 8,
        exact.worth(engine.displacement_scale) == 1real,
        exact.worth(engine.crank_angle) == 0real,
        exact.worth(engine.angular_velocity) * 60real == 1000real * (2real * exact.pi()),
{
    crate::exact_engine_laws::law_base_measures(exact);
    assert(1real / 1real == 1real);
    assert(engine@.num_cylinders == 8);
}

/// The panel tells the settings and the readings of the shared state, and the throttle in percent.
pub proof fn law_panel_tells_the_state<R: Real>(
    exact: Exact<R>,
    shared: &SharedEngineState,
    throttle: R,
    panel: Panel<R>,
)
    requires
        exact.kept(),
        deterministic::<R>(),
        call_ensures(Panel::<R>::new, (shared, throttle), panel),
    ensures
        panel.cylinders == shared.cylinders,
        panel.displacement == R::decoded(shared.displacement),
        panel.rpm == R::decoded(shared.rpm),
        exact.worth(panel.throttle_percent) == 100real * exact.worth(throttle),
        panel.rows@.len() == shared.cylinders,
{
    assert(100real / 1real == 100real);
    crate::algebra::lemma_swap(exact.worth(throttle), 100real);
}

/// A new delay line holds as many samples as were asked for, but at least one.
pub proof fn law_new_line_has_its_length<R: Real>(samples: usize, line: HeaderDelay<R>)
    requires
        call_ensures(HeaderDelay::<R>::new, (samples,), line),
    ensures
        line@.len() == if samples == 0 {
            1
        } else {
            samples as int
        },
{
}

/// The panel has a line for every cylinder, in their order, with its pressure in kilopascals and
/// its own flows.
pub proof fn law_lines_tell_of_all_cylinders<R: Real>(
    exact: Exact<R>,
    shared: &SharedEngineState,
    rows: Vec<CylinderRow<R>>,
    i: int,
)
    requires
        exact.kept(),
        deterministic::<R>(),
        call_ensures(cylinder_rows::<R>, (shared,), rows),
        0 <= i < shared.cylinders <= MAX_CYLINDERS,
    ensures
        rows@.len() == shared.cylinders,
        rows@[i].number == i + 1,
        exact.worth(rows@[i].pressure_kpa) * 1000real == exact.worth(
            R::decoded(shared.pressures@[i]),
        ),
        rows@[i].intake_flow == R::decoded(shared.intake_flows@[i]),
        rows@[i].exhaust_flow == R::decoded(shared.exhaust_flows@[i]),
{
    crate::exact_panel_laws::law_line_tells_of_its_cylinder(exact, shared@, i);
}

/// The texts of the gauges tell the speed, a cell for every 200 turns per minute and the limiter
/// above 7950, and the throttle, a cell for every fortieth.
pub proof fn law_gauges_tell_their_readings<R: Real>(
    exact: Exact<R>,
    reading: R,
    speed: String,
    throttle: String,
    i: int,
)
    requires
        exact.kept(),
        deterministic::<R>(),
        call_ensures(speed_gauge_text::<R>, (reading,), speed),
        call_ensures(throttle_gauge_text::<R>, (reading,), throttle),
        0 <= i < 40,
    ensures
        exact.worth(reading) > 7950real ==> speed@ == "|||||||||||||||| LIMITER |||||||||||||||"@,
        exact.worth(reading) <= 7950real ==> speed@.len() == 40 && is_filled(speed@, i) == ((i
            + 1) as real * 200real <= exact.worth(reading)),
        throttle@.len() == 40,
        is_filled(throttle@, i) == ((i + 1) as real <= 40real * exact.worth(reading)),
{
    crate::exact_panel_laws::law_speed_gauge_tells_the_speed(exact, reading, i);
    crate::exact_panel_laws::law_throttle_gauge_tells_the_throttle(exact, reading, i);
}

/// The intake is at a fifth of the atmosphere at closed throttle and at all of it at open
/// throttle; what the valves leave of a pressure difference falls exponentially with the time.
pub proof fn law_breath_follows_the_throttle<R: Real>(
    exact: Exact<R>,
    dt: R,
    throttle: R,
    air: Breath<R>,
)
    requires
        exact.kept(),
        deterministic::<R>(),
        call_ensures(draw_breath::<R>, (dt, throttle), air),
    ensures
        exact.worth(air.intake_pressure) == 101325real * (2real / 10real + exact.worth(throttle) * (
        8real / 10real)),
        1real - exact.worth(air.intake_rate) == exact.exponential(
            (-exact.worth(dt)) / (2real / 1000real),
        ),
        1real - exact.worth(air.exhaust_rate) == exact.exponential(
            (-exact.worth(dt)) / (5real / 10000real),
        ),
{
    assert(1real / 1real == 1real);
    assert(101325real / 1real == 101325real);
}

} // verus!
