use std::f64::consts::PI;

use ange_synthesizer::controls::{Input, Key, Pedal};
use ange_synthesizer::display::{
    cylinder_rows, gauge_text, picture_pause, speed_gauge_text, throttle_gauge_text, Panel,
};
use ange_synthesizer::dsp::{AutoGain, ConvolutionFilter, DcBlocker, HeaderDelay};
use ange_synthesizer::engine::{draw_breath, EngineSolver, StrokeNoise};
use ange_synthesizer::firing::firing_phases;
use ange_synthesizer::number::Real;
use ange_synthesizer::synth::{frame_count, spread, Synthesizer, EXHAUST_TAPS, INTAKE_TAPS};
use ange_synthesizer::telemetry::{SharedEngineState, MAX_CYLINDERS};

#[derive(Clone, Copy, Debug, PartialEq)]
struct F64(f64);

impl Real for F64 {
    fn add(self, rhs: Self) -> Self {
        F64(self.0 + rhs.0)
    }
    fn sub(self, rhs: Self) -> Self {
        F64(self.0 - rhs.0)
    }
    fn mul(self, rhs: Self) -> Self {
        F64(self.0 * rhs.0)
    }
    fn div(self, rhs: Self) -> Self {
        F64(self.0 / rhs.0)
    }
    fn neg(self) -> Self {
        F64(-self.0)
    }
    fn lt(self, rhs: Self) -> bool {
        self.0 < rhs.0
    }
    fn le(self, rhs: Self) -> bool {
        self.0 <= rhs.0
    }
    fn eq(self, rhs: Self) -> bool {
        self.0 == rhs.0
    }
    fn rem(self, rhs: Self) -> Self {
        F64(self.0 % rhs.0)
    }
    fn abs(self) -> Self {
        F64(self.0.abs())
    }
    fn sqrt(self) -> Self {
        F64(self.0.sqrt())
    }
    fn cbrt(self) -> Self {
        F64(self.0.cbrt())
    }
    fn powi(self, exponent: i32) -> Self {
        F64(self.0.powi(exponent))
    }
    fn powf(self, exponent: Self) -> Self {
        F64(self.0.powf(exponent.0))
    }
    fn exp(self) -> Self {
        F64(self.0.exp())
    }
    fn sin(self) -> Self {
        F64(self.0.sin())
    }
    fn cos(self) -> Self {
        F64(self.0.cos())
    }
    fn tanh(self) -> Self {
        F64(self.0.tanh())
    }
    fn min(self, rhs: Self) -> Self {
        F64(self.0.min(rhs.0))
    }
    fn max(self, rhs: Self) -> Self {
        F64(self.0.max(rhs.0))
    }
    fn clamp(self, low: Self, high: Self) -> Self {
        F64(self.0.clamp(low.0, high.0))
    }
    fn ratio(num: u64, den: u64) -> Self {
        F64(num as f64 / den as f64)
    }
    fn pi() -> Self {
        F64(PI)
    }
    fn to_usize(self) -> usize {
        self.0 as usize
    }
    fn to_bits(self) -> u64 {
        self.0.to_bits()
    }
    fn from_bits(word: u64) -> Self {
        F64(f64::from_bits(word))
    }
}

const ATMOSPHERE: f64 = 101325.0;

/// A sequence of numbers between 0 and 1 that looks random.
struct Draws(u64);

impl Draws {
    fn unit(&mut self) -> f64 {
        self.0 = self.0.wrapping_mul(6364136223846793005).wrapping_add(1442695040888963407);
        (self.0 >> 11) as f64 / (1u64 << 53) as f64
    }
    fn signed(&mut self) -> f64 {
        2.0 * self.unit() - 1.0
    }
    fn stroke(&mut self) -> StrokeNoise<F64> {
        StrokeNoise {
            intake: F64(self.signed()),
            exhaust: F64(self.signed()),
            jitter: F64(0.95 + 0.1 * self.unit()),
        }
    }
    fn frame(&mut self) -> [StrokeNoise<F64>; MAX_CYLINDERS] {
        std::array::from_fn(|_| self.stroke())
    }
    fn taps(&mut self, n: usize) -> Vec<F64> {
        (0..n).map(|_| F64(self.signed())).collect()
    }
}

fn quiet() -> StrokeNoise<F64> {
    StrokeNoise { intake: F64(0.0), exhaust: F64(0.0), jitter: F64(1.0) }
}

fn numbers(xs: &[F64]) -> Vec<f64> {
    xs.iter().map(|x| x.0).collect()
}

/// The physics, computed directly in doubles.
struct Direct {
    cylinders: usize,
    scale: f64,
    r: f64,
    l: f64,
    mass: f64,
    area: f64,
    clearance: f64,
    pressure: [f64; 16],
    volume: [Option<f64>; 16],
    cycle: [f64; 16],
    phase: [f64; 16],
    angle: f64,
    velocity: f64,
}

impl Direct {
    fn new(cylinders: usize, scale: f64) -> Self {
        let s = scale.cbrt();
        let r = 0.04 * s;
        let area = PI * (0.08 * s / 2.0).powi(2);
        let phases: Vec<f64> = match cylinders {
            4 => vec![0.0, 3.0, 1.0, 2.0],
            6 => vec![0.0, 3.333, 1.333, 2.666, 0.666, 2.0],
            8 => vec![0.0, 3.5, 1.5, 1.0, 2.5, 2.0, 3.0, 0.5],
            10 => vec![0.0, 3.6, 1.6, 1.2, 2.8, 2.0, 3.2, 2.4, 0.8, 0.4],
            12 => vec![
                0.0, 3.666, 1.333, 2.333, 0.666, 3.0, 1.666, 2.666, 0.333, 2.0, 1.0, 3.333,
            ],
            n => (0..n).map(|i| i as f64 * (4.0 / n as f64)).collect(),
        };
        let mut phase = [0.0; 16];
        for i in 0..cylinders {
            phase[i] = phases[i] * PI;
        }
        Direct {
            cylinders,
            scale,
            r,
            l: 0.13 * s,
            mass: 0.4 * scale,
            area,
            clearance: area * (2.0 * r) / (9.0 - 1.0),
            pressure: [ATMOSPHERE; 16],
            volume: [None; 16],
            cycle: [0.0; 16],
            phase,
            angle: 0.0,
            velocity: 1000.0 * (2.0 * PI / 60.0),
        }
    }

    fn step(
        &mut self,
        dt: f64,
        throttle: f64,
        noise: &[StrokeNoise<F64>; 16],
    ) -> ([f64; 16], [f64; 16]) {
        let (r, l) = (self.r, self.l);
        let n = self.cylinders as f64;
        let mut torque = 0.0;
        let mut exhausts = [0.0; 16];
        let mut intakes = [0.0; 16];
        let mut inertia = 0.15 * n * self.scale;
        let intake_pressure = ATMOSPHERE * (0.2 + throttle * 0.8);
        let intake_rate = 1.0 - (-dt / 0.002).exp();
        let exhaust_rate = 1.0 - (-dt / 0.0005).exp();
        for i in 0..self.cylinders {
            let theta = self.angle + self.phase[i];
            let (s, c) = (theta.sin(), theta.cos());
            let rod = (l * l - r * r * s * s).sqrt();
            let dx = -r * s - ((r * r * s * c) / rod);
            let volume = self.clearance + self.area * ((r + l) - (r * c + rod));
            let mut cycle = theta % (4.0 * PI);
            if cycle < 0.0 {
                cycle += 4.0 * PI;
            }
            if let Some(v) = self.volume[i] {
                self.pressure[i] *= (v / volume).powf(1.4);
            }
            if cycle < 1.05 * PI || cycle > 3.9 * PI {
                let flow = (self.pressure[i] - intake_pressure) * intake_rate;
                self.pressure[i] -= flow;
                let raw: f64 = flow * 0.00001;
                intakes[i] = raw + raw.abs() * 0.8 * noise[i].intake.0;
            }
            if cycle > 2.9 * PI || cycle < 0.1 * PI {
                let flow = (self.pressure[i] - ATMOSPHERE) * exhaust_rate;
                self.pressure[i] -= flow;
                let raw: f64 = flow * 0.00001;
                exhausts[i] = raw + raw.abs() * 0.5 * noise[i].exhaust.0;
            }
            if self.cycle[i] < 2.0 * PI && cycle >= 2.0 * PI {
                if self.velocity < 8000.0 * (2.0 * PI / 60.0) {
                    self.pressure[i] *= 1.0 + (20.0 * (0.1 + throttle * 0.9) * noise[i].jitter.0);
                }
            }
            self.volume[i] = Some(volume);
            self.cycle[i] = cycle;
            let force = (self.pressure[i] - ATMOSPHERE) * self.area;
            torque += -force * dx;
            inertia += self.mass * (dx * dx);
        }
        let friction = -0.02 * n * self.scale * self.velocity;
        let drag = -0.0001 * n * self.scale * self.velocity * self.velocity.abs();
        let error = (1000.0 * 2.0 * PI / 60.0) - self.velocity;
        let idle = if error > 0.0 { error * 5.0 * n * self.scale } else { 0.0 };
        self.velocity += ((torque + friction + drag + idle) / inertia) * dt;
        if self.velocity < 0.0 {
            self.velocity = 0.0;
        }
        self.angle += self.velocity * dt;
        if self.angle > 2000.0 * PI {
            self.angle -= 2000.0 * PI;
        }
        (exhausts, intakes)
    }
}

fn compare_with_direct(cylinders: usize, scale: f64, steps: usize) {
    let mut draws = Draws(cylinders as u64);
    let mut direct = Direct::new(cylinders, scale);
    let mut engine: EngineSolver<F64> = EngineSolver::new();
    engine.reconfigure(cylinders, F64(scale));
    let dt = 1.0 / 44100.0;
    for k in 0..steps {
        let throttle = if (k / 700) % 2 == 0 { 1.0 } else { 0.1 };
        let noise = draws.frame();
        let (ex, inn) = engine.step(F64(dt), F64(throttle), &noise);
        let (dex, dinn) = direct.step(dt, throttle, &noise);
        assert_eq!(numbers(&ex), dex.to_vec());
        assert_eq!(numbers(&inn), dinn.to_vec());
        assert_eq!(numbers(&engine.cylinder_pressure), direct.pressure.to_vec());
        assert_eq!(engine.angular_velocity.0, direct.velocity);
        assert_eq!(engine.crank_angle.0, direct.angle);
    }
    assert!(direct.velocity > 0.0);
}

#[test]
fn new_engine_has_its_build() {
    let e: EngineSolver<F64> = EngineSolver::new();
    assert_eq!(e.base_crank_radius.0, 0.04);
    assert_eq!(e.base_rod_length.0, 0.13);
    assert_eq!(e.base_crank_inertia.0, 0.15);
    assert_eq!(e.base_piston_mass.0, 0.4);
    assert_eq!(e.base_bore.0, 0.08);
    assert_eq!(e.compression_ratio.0, 9.0);
    assert_eq!(e.num_cylinders, 8);
    assert_eq!(e.displacement_scale.0, 1.0);
    assert_eq!(e.crank_radius.0, 0.04);
    assert_eq!(e.rod_length.0, 0.13);
    assert_eq!(e.piston_mass.0, 0.4);
    let area = PI * (0.08f64 / 2.0).powi(2);
    assert_eq!(e.piston_area.0, area);
    assert_eq!(e.clearance_volume.0, area * (2.0 * 0.04) / 8.0);
    assert_eq!(e.angular_velocity.0, 1000.0 * (2.0 * PI / 60.0));
    assert_eq!(e.crank_angle.0, 0.0);
    assert_eq!(e.phase_offsets[1].0, 3.5 * PI);
    assert_eq!(e.phase_offsets[8].0, 0.0);
    assert!(e.prev_volume.iter().all(|v| v.is_none()));
}

#[test]
fn engines_run_as_computed_directly() {
    compare_with_direct(8, 1.0, 3000);
    compare_with_direct(12, 2.5, 2000);
    compare_with_direct(1, 0.1, 2000);
    compare_with_direct(5, 10.0, 2000);
    compare_with_direct(16, 1.1, 1000);
    compare_with_direct(4, 1.0, 1000);
    compare_with_direct(6, 1.0, 1000);
    compare_with_direct(10, 1.0, 1000);
}

#[test]
fn reconfiguring_empties_the_cylinders_and_keeps_the_crank() {
    let mut draws = Draws(3);
    let mut e: EngineSolver<F64> = EngineSolver::new();
    for _ in 0..500 {
        let noise = draws.frame();
        e.step(F64(1.0 / 44100.0), F64(1.0), &noise);
    }
    assert!(e.cylinder_pressure[0].0 != ATMOSPHERE);
    let (angle, velocity) = (e.crank_angle, e.angular_velocity);
    e.reconfigure(6, F64(8.0));
    assert_eq!(e.crank_angle, angle);
    assert_eq!(e.angular_velocity, velocity);
    assert_eq!(e.crank_radius.0, 0.04 * 8f64.cbrt());
    assert_eq!(e.piston_mass.0, 0.4 * 8.0);
    assert_eq!(numbers(&e.cylinder_pressure), vec![ATMOSPHERE; 16]);
    assert!(e.prev_volume.iter().all(|v| v.is_none()));
    assert_eq!(numbers(&e.prev_cycle_angle), vec![0.0; 16]);
    assert_eq!(e.phase_offsets[5].0, 2.0 * PI);
    assert_eq!(e.phase_offsets[6].0, 0.0);
}

#[test]
fn reconfiguring_takes_counts_beyond_the_largest() {
    let mut e: EngineSolver<F64> = EngineSolver::new();
    e.reconfigure(20, F64(1.0));
    assert_eq!(e.num_cylinders, 20);
    assert_eq!(e.phase_offsets[15].0, 15.0 * (4.0 / 20.0) * PI);
    e.reconfigure(0, F64(1.0));
    assert_eq!(e.num_cylinders, 0);
    assert_eq!(e.phase_offsets[0].0, 0.0);
}

#[test]
fn last_configuration_counts() {
    let mut once: EngineSolver<F64> = EngineSolver::new();
    once.reconfigure(12, F64(3.0));
    let mut twice: EngineSolver<F64> = EngineSolver::new();
    twice.reconfigure(5, F64(0.5));
    twice.reconfigure(12, F64(3.0));
    assert_eq!(once.crank_radius, twice.crank_radius);
    assert_eq!(once.clearance_volume, twice.clearance_volume);
    assert_eq!(once.phase_offsets, twice.phase_offsets);
}

#[test]
fn a_step_leaves_missing_cylinders_alone() {
    let mut e: EngineSolver<F64> = EngineSolver::new();
    e.reconfigure(3, F64(1.0));
    let (ex, inn) = e.step(F64(0.0001), F64(1.0), &[quiet(); MAX_CYLINDERS]);
    for i in 3..MAX_CYLINDERS {
        assert_eq!(e.cylinder_pressure[i].0, ATMOSPHERE);
        assert!(e.prev_volume[i].is_none());
        assert_eq!(ex[i].0, 0.0);
        assert_eq!(inn[i].0, 0.0);
    }
    assert!(e.prev_volume[2].is_some());
}

/// A one-cylinder engine just before the top of its compression, at this speed.
fn before_top(rpm: f64) -> EngineSolver<F64> {
    let mut e: EngineSolver<F64> = EngineSolver::new();
    e.reconfigure(1, F64(1.0));
    e.prev_cycle_angle[0] = F64(1.99 * PI);
    e.crank_angle = F64(2.01 * PI);
    e.angular_velocity = F64(rpm * (2.0 * PI / 60.0));
    e
}

#[test]
fn spark_is_cut_at_the_rev_limit() {
    let breath = draw_breath(F64(1.0 / 44100.0), F64(1.0));
    let weak = StrokeNoise { jitter: F64(0.95), ..quiet() };
    let strong = StrokeNoise { jitter: F64(1.05), ..quiet() };
    let slow = before_top(7999.0);
    let p1 = slow.stroke(0, &breath, F64(1.0), weak).pressure.0;
    let p2 = slow.stroke(0, &breath, F64(1.0), strong).pressure.0;
    assert_eq!(p1, ATMOSPHERE * (1.0 + 20.0 * (0.1 + 0.9) * 0.95));
    assert!(p1 < p2);
    let fast = before_top(8001.0);
    let q1 = fast.stroke(0, &breath, F64(1.0), weak).pressure.0;
    let q2 = fast.stroke(0, &breath, F64(0.0), strong).pressure.0;
    assert_eq!(q1, ATMOSPHERE);
    assert_eq!(q2, ATMOSPHERE);
}

#[test]
fn plug_fires_once_per_pass() {
    let mut e = before_top(2000.0);
    e.step(F64(1.0 / 44100.0), F64(0.0), &[quiet(); MAX_CYLINDERS]);
    let burnt = e.cylinder_pressure[0].0;
    assert!(burnt > 2.9 * ATMOSPHERE);
    e.step(F64(1.0 / 44100.0), F64(0.0), &[quiet(); MAX_CYLINDERS]);
    assert!(e.cylinder_pressure[0].0 < burnt * 1.01);
}

#[test]
fn closed_valves_are_silent() {
    let mut e: EngineSolver<F64> = EngineSolver::new();
    e.reconfigure(1, F64(1.0));
    e.crank_angle = F64(1.5 * PI);
    let breath = draw_breath(F64(1.0 / 44100.0), F64(0.5));
    let loud = StrokeNoise { intake: F64(1.0), exhaust: F64(-1.0), jitter: F64(1.05) };
    let stroke = e.stroke(0, &breath, F64(0.5), loud);
    assert_eq!(stroke.intake_flow.0, 0.0);
    assert_eq!(stroke.exhaust_flow.0, 0.0);
    assert_eq!(stroke.pressure.0, ATMOSPHERE);
}

#[test]
fn crank_stops_but_never_turns_back() {
    let mut e: EngineSolver<F64> = EngineSolver::new();
    e.reconfigure(1, F64(1.0));
    e.angular_velocity = F64(5000.0);
    e.step(F64(10.0), F64(0.0), &[quiet(); MAX_CYLINDERS]);
    assert_eq!(e.angular_velocity.0, 0.0);
    assert_eq!(e.crank_angle.0, 0.0);
}

#[test]
fn crank_angle_wraps_after_a_thousand_turns() {
    let mut e: EngineSolver<F64> = EngineSolver::new();
    e.crank_angle = F64(2000.0 * PI);
    e.step(F64(0.0001), F64(0.0), &[quiet(); MAX_CYLINDERS]);
    assert!(e.crank_angle.0 > 0.0 && e.crank_angle.0 < 0.1);
}

#[test]
fn untabulated_phases_are_evenly_spaced() {
    assert_eq!(numbers(&firing_phases::<F64>(5)), vec![0.0, 0.8, 1.6, 3.0 * 0.8, 3.2]);
    assert!(firing_phases::<F64>(0).is_empty());
    assert_eq!(numbers(&firing_phases::<F64>(6)), vec![0.0, 3.333, 1.333, 2.666, 0.666, 2.0]);
}

#[test]
fn delay_line_shifts_the_signal() {
    let mut line: HeaderDelay<F64> = HeaderDelay::new(3);
    let outputs: Vec<f64> = (1..=8).map(|x| line.process(F64(x as f64)).0).collect();
    assert_eq!(outputs, vec![0.0, 0.0, 0.0, 1.0, 2.0, 3.0, 4.0, 5.0]);
}

#[test]
fn delay_line_holds_at_least_one_sample() {
    let mut line: HeaderDelay<F64> = HeaderDelay::new(0);
    assert_eq!(line.process(F64(4.0)).0, 0.0);
    assert_eq!(line.process(F64(5.0)).0, 4.0);
}

#[test]
fn impulse_response_mixes_noise_and_resonance() {
    let noise = vec![F64(0.5), F64(-0.25)];
    let filter = ConvolutionFilter::new(F64(44100.0), F64(150.0), F64(120.0), &noise);
    let first = 0.3 * (0.5 * 0.5 + 0.5);
    let envelope = (-1.0f64 / 120.0).exp();
    let resonance = (2.0 * PI * 150.0 / 44100.0f64).cos();
    let mixed = -0.25 * envelope * 0.5 + resonance * envelope * 0.5;
    assert_eq!(filter.ir[0].0, first);
    assert_eq!(filter.ir[1].0, first + 0.3 * (mixed - first));
    assert_eq!(numbers(&filter.history), vec![0.0, 0.0]);
}

#[test]
fn filter_answers_an_impulse_with_its_response() {
    let mut filter = ConvolutionFilter {
        ir: vec![F64(3.0), F64(2.0), F64(1.0)],
        history: vec![F64(0.0); 3],
        ptr: 0,
    };
    let outputs: Vec<f64> =
        [1.0, 0.0, 0.0, 0.0, 10.0, 1.0].iter().map(|x| filter.process(F64(*x)).0).collect();
    assert_eq!(outputs, vec![3.0, 2.0, 1.0, 0.0, 30.0, 23.0]);
}

#[test]
fn filter_forgets_what_is_older_than_its_taps() {
    let ir = vec![F64(0.5), F64(0.25), F64(2.0)];
    let mut a = ConvolutionFilter { ir: ir.clone(), history: vec![F64(0.0); 3], ptr: 0 };
    let mut b = ConvolutionFilter { ir, history: vec![F64(9.0); 3], ptr: 2 };
    for x in [1.0, -2.0, 4.0] {
        a.process(F64(x));
        b.process(F64(x));
    }
    assert_eq!(a.process(F64(8.0)), b.process(F64(8.0)));
}

#[test]
fn auto_gain_rises_at_once_and_falls_slowly() {
    let mut gain: AutoGain<F64> = AutoGain::new();
    assert_eq!(gain.process(F64(-4.0)).0, -1.0);
    assert_eq!(gain.peak.0, 4.0);
    let peak = 4.0 * 0.999 + 0.001;
    assert_eq!(gain.process(F64(1.0)).0, 1.0 / peak);
    assert_eq!(gain.peak.0, peak);
}

#[test]
fn dc_blocker_lets_a_constant_fade() {
    let mut blocker: DcBlocker<F64> = DcBlocker::new();
    assert_eq!(blocker.process(F64(2.0)).0, 2.0);
    assert_eq!(blocker.process(F64(2.0)).0, 0.995 * 2.0);
    assert_eq!(blocker.process(F64(3.0)).0, 1.0 + 0.995 * (0.995 * 2.0));
}

fn synthesizer(seed: u64) -> Synthesizer<F64> {
    let mut draws = Draws(seed);
    let exhaust = draws.taps(EXHAUST_TAPS);
    let intake = draws.taps(INTAKE_TAPS);
    Synthesizer::new(F64(48000.0), &exhaust, &intake)
}

fn header_length(i: usize, sample_rate: f64) -> usize {
    let bank = (i / 2) as f64;
    let imperfection = (i as f64 * 1.618).sin() * 0.4;
    ((1.5 + (bank * 1.2) + imperfection) / 1000.0 * sample_rate) as usize
}

#[test]
fn rendering_follows_the_signal_path() {
    let mut synth = synthesizer(1);
    let exhaust_ir = numbers(&synth.exhaust_pipe.ir);
    let intake_ir = numbers(&synth.intake_box.ir);
    let mut shared = SharedEngineState::new();
    shared.cylinders = 6;
    shared.throttle = 0.7f64.to_bits();
    shared.displacement = 1.5f64.to_bits();
    let mut draws = Draws(2);
    let noise: Vec<[StrokeNoise<F64>; MAX_CYLINDERS]> = (0..900).map(|_| draws.frame()).collect();
    let samples = synth.render(&mut shared, &noise);

    let mut direct = Direct::new(6, 1.5);
    let mut lines: Vec<Vec<f64>> =
        (0..6).map(|i| vec![0.0; header_length(i, 48000.0)]).collect();
    let (mut exhaust_in, mut intake_in) = (vec![], vec![]);
    let (mut x_prev, mut y_prev, mut peak) = (0.0, 0.0, 1.0);
    let mut last = ([0.0; 16], [0.0; 16]);
    for k in 0..noise.len() {
        last = direct.step(1.0 / 48000.0, 0.7, &noise[k]);
        let (mut mixed_exhaust, mut mixed_intake) = (0.0, 0.0);
        for i in 0..6 {
            mixed_exhaust += lines[i].remove(0);
            lines[i].push(last.0[i]);
            mixed_intake += last.1[i];
        }
        exhaust_in.push(mixed_exhaust);
        intake_in.push(mixed_intake);
        let convolve = |xs: &Vec<f64>, ir: &Vec<f64>| {
            let mut sum = 0.0;
            for i in 0..ir.len() {
                sum += if i <= k { xs[k - i] } else { 0.0 } * ir[i];
            }
            sum
        };
        let x = convolve(&exhaust_in, &exhaust_ir)
            + (convolve(&intake_in, &intake_ir) * (0.2 + (0.7 * 0.8)));
        let drive: f64 = 3.0 + (0.7 * 15.0);
        let y: f64 = x - x_prev + 0.995 * y_prev;
        x_prev = x;
        y_prev = y;
        let level = (y * drive).tanh() / drive.tanh();
        peak = if level.abs() > peak { level.abs() } else { peak * 0.999 + 1.0 * 0.001 };
        assert_eq!(samples[k].0, (level / peak * 0.8).clamp(-1.0, 1.0));
    }
    assert!(samples.iter().any(|s| s.0 != 0.0));
    assert_eq!(shared.rpm, (direct.velocity * (60.0 / (2.0 * PI))).to_bits());
    for i in 0..6 {
        assert_eq!(shared.pressures[i], direct.pressure[i].to_bits());
        assert_eq!(shared.exhaust_flows[i], last.0[i].to_bits());
        assert_eq!(shared.intake_flows[i], last.1[i].to_bits());
    }
    assert_eq!(shared.pressures[6], ATMOSPHERE.to_bits());
    assert_eq!(shared.cylinders, 6);
    assert_eq!(shared.throttle, 0.7f64.to_bits());
    assert_eq!(shared.displacement, 1.5f64.to_bits());
}

#[test]
fn block_boundaries_cannot_be_heard() {
    let mut draws = Draws(9);
    let noise: Vec<[StrokeNoise<F64>; MAX_CYLINDERS]> = (0..300).map(|_| draws.frame()).collect();
    let (mut one, mut two) = (synthesizer(5), synthesizer(5));
    let (mut shared1, mut shared2) = (SharedEngineState::new(), SharedEngineState::new());
    shared1.throttle = 1.0f64.to_bits();
    shared2.throttle = 1.0f64.to_bits();
    let whole = one.render(&mut shared1, &noise);
    let mut parts = two.render(&mut shared2, &noise[..123].to_vec());
    parts.extend(two.render(&mut shared2, &noise[123..].to_vec()));
    assert_eq!(whole, parts);
    assert_eq!(shared1.rpm, shared2.rpm);
    assert_eq!(shared1.pressures, shared2.pressures);
    assert_eq!(shared1.exhaust_flows, shared2.exhaust_flows);
}

#[test]
fn draws_for_missing_cylinders_play_no_part() {
    let mut draws = Draws(11);
    let noise: Vec<[StrokeNoise<F64>; MAX_CYLINDERS]> = (0..200).map(|_| draws.frame()).collect();
    let mut other = noise.clone();
    for frame in other.iter_mut() {
        for i in 8..MAX_CYLINDERS {
            frame[i] = quiet();
        }
    }
    let (mut one, mut two) = (synthesizer(6), synthesizer(6));
    let (mut shared1, mut shared2) = (SharedEngineState::new(), SharedEngineState::new());
    assert_eq!(one.render(&mut shared1, &noise), two.render(&mut shared2, &other));
    assert_eq!(shared1.rpm, shared2.rpm);
}

#[test]
fn panel_shows_what_was_published() {
    let mut draws = Draws(12);
    let noise: Vec<[StrokeNoise<F64>; MAX_CYLINDERS]> = (0..200).map(|_| draws.frame()).collect();
    let mut synth = synthesizer(7);
    let mut shared = SharedEngineState::new();
    let mut pedal: Pedal<F64> = Pedal::new();
    pedal.turn(&mut shared, press(Key::Char('w')));
    synth.render(&mut shared, &noise);
    let panel = Panel::new(&shared, pedal.actual_throttle);
    for i in 0..8 {
        assert_eq!(panel.rows[i].pressure_kpa.0, synth.engine.cylinder_pressure[i].0 / 1000.0);
    }
    assert_eq!(panel.rpm.0, synth.engine.angular_velocity.0 * (60.0 / (2.0 * PI)));
}

#[test]
fn headers_delay_by_a_constant_time() {
    let mut draws = Draws(13);
    let mut synth = synthesizer(3);
    synth.retune(1, F64(1.0));
    let delay = header_length(0, 48000.0);
    let mut sounds = vec![];
    let mut arrived = vec![];
    for _ in 0..3000 {
        let line = &synth.header_delays[0];
        arrived.push(line.buffer[line.ptr].0);
        let (_, exhausts, _) = synth.frame(F64(1.0), &draws.frame());
        sounds.push(exhausts[0].0);
    }
    assert!(sounds.iter().any(|x| *x != 0.0));
    assert_eq!(arrived[..delay].to_vec(), vec![0.0; delay]);
    assert_eq!(arrived[delay..].to_vec(), sounds[..3000 - delay].to_vec());
}

#[test]
fn settings_retune_the_synthesizer_once() {
    let mut draws = Draws(4);
    let noise: Vec<[StrokeNoise<F64>; MAX_CYLINDERS]> = (0..50).map(|_| draws.frame()).collect();
    let mut synth = synthesizer(8);
    assert!(synth.header_delays.is_empty());
    let mut shared = SharedEngineState::new();
    synth.render(&mut shared, &noise);
    assert_eq!(synth.header_delays.len(), 8);
    for i in 0..8 {
        assert_eq!(synth.header_delays[i].buffer.len(), header_length(i, 48000.0));
    }
    let moved = synth.header_delays[0].ptr;
    assert_eq!(moved, 50);
    synth.retune(8, F64(1.0));
    assert_eq!(synth.header_delays[0].ptr, moved);
    synth.retune(8, F64(1.1));
    assert_eq!(synth.header_delays[0].ptr, 0);
    assert_eq!(synth.engine.displacement_scale.0, 1.1);
    synth.retune(12, F64(1.1));
    assert_eq!(synth.header_delays.len(), 12);
    assert_eq!(synth.engine.num_cylinders, 12);
}

#[test]
fn an_empty_block_reports_silence() {
    let mut synth = synthesizer(8);
    let mut shared = SharedEngineState::new();
    shared.exhaust_flows[0] = 7;
    shared.exhaust_flows[15] = 7;
    assert!(synth.render(&mut shared, &vec![]).is_empty());
    assert_eq!(shared.exhaust_flows[0], 0);
    assert_eq!(shared.exhaust_flows[15], 7);
    assert_eq!(f64::from_bits(shared.rpm).round(), 1000.0);
}

fn press(key: Key) -> Input {
    Input::Pressed { key, control: false }
}

#[test]
fn keys_change_the_cylinders_within_their_range() {
    let mut pedal: Pedal<F64> = Pedal::new();
    let mut shared = SharedEngineState::new();
    for expected in [9usize, 10, 11, 12, 13, 14, 15, 16, 16, 16] {
        assert!(!pedal.turn(&mut shared, press(Key::Up)));
        assert_eq!(shared.cylinders, expected);
    }
    for _ in 0..20 {
        pedal.turn(&mut shared, press(Key::Down));
    }
    assert_eq!(shared.cylinders, 1);
}

#[test]
fn up_and_down_undo_each_other() {
    let mut pedal: Pedal<F64> = Pedal::new();
    let mut shared = SharedEngineState::new();
    pedal.turn(&mut shared, press(Key::Up));
    pedal.turn(&mut shared, press(Key::Down));
    assert_eq!(shared.cylinders, 8);
    pedal.turn(&mut shared, press(Key::Down));
    pedal.turn(&mut shared, press(Key::Up));
    assert_eq!(shared.cylinders, 8);
}

#[test]
fn keys_change_the_displacement_within_its_range() {
    let mut pedal: Pedal<F64> = Pedal::new();
    let mut shared = SharedEngineState::new();
    pedal.turn(&mut shared, press(Key::Right));
    assert_eq!(shared.displacement, 1.1f64.to_bits());
    pedal.turn(&mut shared, press(Key::Left));
    assert_eq!(shared.displacement, (1.1f64 / 1.1).to_bits());
    for _ in 0..50 {
        pedal.turn(&mut shared, press(Key::Right));
    }
    assert_eq!(shared.displacement, 10.0f64.to_bits());
    for _ in 0..100 {
        pedal.turn(&mut shared, press(Key::Left));
    }
    assert_eq!(shared.displacement, 0.1f64.to_bits());
}

#[test]
fn throttle_follows_the_pedal() {
    let mut pedal: Pedal<F64> = Pedal::new();
    let mut shared = SharedEngineState::new();
    pedal.turn(&mut shared, press(Key::Char('w')));
    assert_eq!(pedal.actual_throttle.0, 0.15);
    assert_eq!(shared.throttle, 0.15f64.to_bits());
    pedal.turn(&mut shared, Input::Other);
    let second = 0.15 + (1.0 - 0.15) * 0.15;
    assert_eq!(pedal.actual_throttle.0, second);
    pedal.turn(&mut shared, Input::Idle);
    assert_eq!(pedal.target_throttle.0, 0.0);
    assert_eq!(shared.throttle, (second + (0.0 - second) * 0.15).to_bits());
    pedal.turn(&mut shared, press(Key::Char('W')));
    assert_eq!(pedal.target_throttle.0, 1.0);
}

#[test]
fn only_quit_keys_quit() {
    let mut shared = SharedEngineState::new();
    let mut quits = |input: Input| {
        let mut pedal: Pedal<F64> = Pedal::new();
        pedal.turn(&mut shared, input)
    };
    assert!(quits(press(Key::Char('q'))));
    assert!(quits(press(Key::Esc)));
    assert!(quits(Input::Pressed { key: Key::Char('c'), control: true }));
    assert!(!quits(press(Key::Char('c'))));
    assert!(!quits(press(Key::Char('x'))));
    assert!(!quits(press(Key::Other)));
    assert!(!quits(press(Key::Up)));
    assert!(!quits(Input::Other));
    assert!(!quits(Input::Idle));
}

#[test]
fn quitting_leaves_the_throttle_where_it_is() {
    let mut pedal = Pedal { target_throttle: F64(1.0), actual_throttle: F64(0.5) };
    let mut shared = SharedEngineState::new();
    shared.throttle = 7;
    assert!(pedal.turn(&mut shared, press(Key::Esc)));
    assert_eq!(pedal.actual_throttle.0, 0.5);
    assert_eq!(shared.throttle, 7);
}

#[test]
fn gauges_have_one_width() {
    assert_eq!(gauge_text(0), "-".repeat(40));
    assert_eq!(gauge_text(13), "█".repeat(13) + &"-".repeat(27));
    assert_eq!(gauge_text(40), "█".repeat(40));
    assert_eq!(gauge_text(41), "█".repeat(41));
    assert_eq!(speed_gauge_text(F64(8000.0)).chars().count(), 40);
}

#[test]
fn speed_gauge_shows_the_limiter() {
    assert_eq!(speed_gauge_text(F64(0.0)), gauge_text(0));
    assert_eq!(speed_gauge_text(F64(4000.0)), gauge_text(20));
    assert_eq!(speed_gauge_text(F64(7950.0)), gauge_text(39));
    assert_eq!(
        speed_gauge_text(F64(7951.0)),
        "|||||||||||||||| LIMITER |||||||||||||||"
    );
}

#[test]
fn throttle_gauge_is_held_to_its_range() {
    assert_eq!(throttle_gauge_text(F64(-1.0)), gauge_text(0));
    assert_eq!(throttle_gauge_text(F64(0.5)), gauge_text(20));
    assert_eq!(throttle_gauge_text(F64(2.0)), gauge_text(40));
}

#[test]
fn panel_shows_the_shared_state() {
    let mut shared = SharedEngineState::new();
    shared.cylinders = 2;
    shared.rpm = 2000.0f64.to_bits();
    shared.displacement = 1.5f64.to_bits();
    shared.pressures[1] = 250000.0f64.to_bits();
    shared.intake_flows[1] = (-0.5f64).to_bits();
    shared.exhaust_flows[1] = 0.25f64.to_bits();
    let panel = Panel::new(&shared, F64(0.25));
    assert_eq!(panel.cylinders, 2);
    assert_eq!(panel.displacement.0, 1.5);
    assert_eq!(panel.rpm.0, 2000.0);
    assert_eq!(panel.speed_gauge, gauge_text(10));
    assert_eq!(panel.throttle_percent.0, 25.0);
    assert_eq!(panel.throttle_gauge, gauge_text(10));
    assert_eq!(panel.rows.len(), 2);
    assert_eq!(panel.rows[0].number, 1);
    assert_eq!(panel.rows[0].pressure_kpa.0, 101.325);
    let rows = cylinder_rows::<F64>(&shared);
    assert_eq!(rows[1].number, 2);
    assert_eq!(rows[1].pressure_kpa.0, 250.0);
    assert_eq!(rows[1].intake_flow.0, -0.5);
    assert_eq!(rows[1].exhaust_flow.0, 0.25);
}

#[test]
fn pictures_are_paced() {
    assert_eq!(picture_pause(0), Some(33_000_000));
    assert_eq!(picture_pause(32_999_999), Some(1));
    assert_eq!(picture_pause(33_000_000), None);
    assert_eq!(picture_pause(u128::MAX), None);
}

#[test]
fn filter_ring_advances_slot_by_slot() {
    let mut f = ConvolutionFilter {
        ir: vec![F64(1.0), F64(2.0), F64(3.0)],
        history: vec![F64(0.0); 3],
        ptr: 0,
    };
    f.process(F64(1.0));
    f.process(F64(10.0));
    f.process(F64(100.0));
    assert_eq!(f.process(F64(1000.0)).0, 1230.0);
    assert_eq!(f.ptr, 1);
    assert_eq!(numbers(&f.history), vec![1000.0, 10.0, 100.0]);
    assert_eq!(numbers(&f.ir), vec![1.0, 2.0, 3.0]);
}

#[test]
fn delay_ring_advances_slot_by_slot() {
    let mut d: HeaderDelay<F64> = HeaderDelay::new(3);
    assert_eq!(d.ptr, 0);
    for x in [1.0, 2.0, 3.0] {
        assert_eq!(d.process(F64(x)).0, 0.0);
    }
    assert_eq!(d.process(F64(4.0)).0, 1.0);
    assert_eq!(numbers(&d.buffer), vec![4.0, 2.0, 3.0]);
    assert_eq!(d.ptr, 1);
}

#[test]
fn new_filters_start_at_the_first_slot() {
    let mut draws = Draws(21);
    let filter = ConvolutionFilter::new(F64(48000.0), F64(150.0), F64(120.0), &draws.taps(5));
    assert_eq!(filter.ptr, 0);
    assert_eq!(filter.ir.len(), 5);
    assert_eq!(numbers(&filter.history), vec![0.0; 5]);
    let empty = ConvolutionFilter::new(F64(48000.0), F64(150.0), F64(120.0), &vec![]);
    assert!(empty.ir.is_empty() && empty.history.is_empty());
    assert_eq!(empty.ptr, 0);
}

#[test]
fn fresh_readings_agree_with_a_fresh_engine() {
    let shared = SharedEngineState::new();
    let e: EngineSolver<F64> = EngineSolver::new();
    assert_eq!(shared.cylinders, e.num_cylinders);
    assert_eq!(f64::from_bits(shared.displacement), e.displacement_scale.0);
    for i in 0..MAX_CYLINDERS {
        assert_eq!(f64::from_bits(shared.pressures[i]), e.cylinder_pressure[i].0);
    }
}

#[test]
fn offsets_fill_the_cycle_evenly() {
    let mut e: EngineSolver<F64> = EngineSolver::new();
    for n in 1..=MAX_CYLINDERS {
        e.reconfigure(n, F64(1.0));
        assert_eq!(e.phase_offsets[0].0, 0.0);
        let mut offsets = numbers(&e.phase_offsets[..n]);
        offsets.sort_by(|a, b| a.partial_cmp(b).unwrap());
        for k in 0..n {
            let point = k as f64 * 4.0 * PI / n as f64;
            assert!((offsets[k] - point).abs() <= 0.001 * PI);
            assert!(offsets[k] >= 0.0 && offsets[k] < 4.0 * PI);
        }
    }
}

#[test]
fn a_second_step_of_no_time_changes_nothing() {
    let mut draws = Draws(22);
    let mut e: EngineSolver<F64> = EngineSolver::new();
    for _ in 0..1000 {
        let noise = draws.frame();
        e.step(F64(1.0 / 44100.0), F64(1.0), &noise);
    }
    e.step(F64(0.0), F64(0.3), &draws.frame());
    let pressure = e.cylinder_pressure;
    let volume = e.prev_volume;
    let cycle = e.prev_cycle_angle;
    let (angle, velocity) = (e.crank_angle, e.angular_velocity);
    let (ex, inn) = e.step(F64(0.0), F64(0.9), &draws.frame());
    assert_eq!(numbers(&ex), vec![0.0; 16]);
    assert_eq!(numbers(&inn), vec![0.0; 16]);
    assert_eq!(e.cylinder_pressure, pressure);
    assert_eq!(e.prev_volume, volume);
    assert_eq!(e.prev_cycle_angle, cycle);
    assert_eq!(e.crank_angle, angle);
    assert_eq!(e.angular_velocity, velocity);
}

#[test]
fn draws_move_the_engine_by_combustion_only() {
    let mut draws = Draws(23);
    let build = || {
        let mut e: EngineSolver<F64> = EngineSolver::new();
        e.reconfigure(1, F64(1.0));
        e
    };
    let (mut a, mut b) = (build(), build());
    let (ex_a, in_a) = a.step(F64(0.0001), F64(0.5), &draws.frame());
    let (ex_b, in_b) = b.step(F64(0.0001), F64(0.5), &draws.frame());
    assert!(in_a[0] != in_b[0]);
    assert_eq!(ex_a[1], ex_b[1]);
    assert_eq!(a.cylinder_pressure, b.cylinder_pressure);
    assert_eq!(a.angular_velocity, b.angular_velocity);
    assert_eq!(a.crank_angle, b.crank_angle);
}

#[test]
fn pipe_convolves_causally() {
    let mut draws = Draws(24);
    let mut f = ConvolutionFilter::new(F64(48000.0), F64(240.0), F64(15.0), &draws.taps(7));
    let ir = numbers(&f.ir);
    let mut heard: Vec<f64> = vec![];
    for k in 0..20usize {
        let x = draws.signed();
        heard.push(x);
        let mut sum = 0.0;
        for i in 0..(k + 1).min(7) {
            sum += heard[k - i] * ir[i];
        }
        assert_eq!(f.process(F64(x)).0, sum);
    }
}

#[test]
fn unit_impulse_plays_the_response_back() {
    let mut draws = Draws(25);
    let mut f = ConvolutionFilter::new(F64(48000.0), F64(150.0), F64(120.0), &draws.taps(9));
    let ir = numbers(&f.ir);
    assert_eq!(f.process(F64(1.0)).0, ir[0]);
    for k in 1..20usize {
        let expected = if k < 9 { ir[k] } else { 0.0 };
        assert_eq!(f.process(F64(0.0)).0, expected);
    }
}

#[test]
fn peak_is_never_below_one() {
    let mut draws = Draws(26);
    let mut gain: AutoGain<F64> = AutoGain::new();
    for k in 0..20000usize {
        let x = match k % 5000 {
            17 => f64::NAN,
            18 => 3.0e5,
            _ => 0.9 * draws.signed(),
        };
        let before = gain.peak.0;
        gain.process(F64(x));
        assert!(gain.peak.0 >= 1.0);
        assert!(gain.peak.0 <= before.max(x.abs()));
    }
    gain.process(F64(f64::INFINITY));
    gain.process(F64(0.0));
    assert_eq!(gain.peak.0, f64::INFINITY);
}

#[test]
fn constant_input_fades() {
    let mut blocker: DcBlocker<F64> = DcBlocker::new();
    let mut y = blocker.process(F64(-0.7)).0;
    for _ in 0..1000 {
        let next = blocker.process(F64(-0.7)).0;
        assert_eq!(next, 0.995 * y);
        y = next;
    }
}

#[test]
fn samples_are_held_to_the_full_scale() {
    let mut draws = Draws(27);
    let noise: Vec<[StrokeNoise<F64>; MAX_CYLINDERS]> = (0..1500).map(|_| draws.frame()).collect();
    let mut synth = synthesizer(28);
    let mut shared = SharedEngineState::new();
    shared.throttle = 1.0f64.to_bits();
    for sample in synth.render(&mut shared, &noise) {
        assert!(sample.0 >= -1.0 && sample.0 <= 1.0);
    }
}

#[test]
fn throttle_stays_in_range() {
    let mut pedal: Pedal<F64> = Pedal::new();
    let mut shared = SharedEngineState::new();
    for k in 0..6000usize {
        let before = pedal.actual_throttle.0;
        let pressed = k % 3000 < 400;
        let input = if pressed { press(Key::Char('w')) } else { Input::Idle };
        pedal.turn(&mut shared, input);
        let now = pedal.actual_throttle.0;
        assert!(now >= 0.0 && now <= 1.0);
        assert!(if pressed { now >= before } else { now <= before });
    }
}

#[test]
fn displacement_keeps_the_compression() {
    for cylinders in 1..=16 {
        for scale in [0.1, 0.3, 1.0, 2.5, 10.0] {
            let mut engine: EngineSolver<F64> = EngineSolver::new();
            engine.reconfigure(cylinders, F64(scale));
            let clearance = engine.clearance_volume.0;
            let swept = engine.piston_area.0 * 2.0 * engine.crank_radius.0;
            assert!(clearance > 0.0);
            assert_eq!(engine.compression_ratio.0, 9.0);
            assert!(((clearance + swept) / clearance - 9.0).abs() <= 1e-9);
            assert!(engine.rod_length.0 > engine.crank_radius.0);
            assert!(engine.crank_radius.0 > 0.0);
        }
    }
}

#[test]
fn volumes_grow_with_the_displacement() {
    for scale in [0.1, 0.7, 1.0, 10.0] {
        for factor in [0.1, 0.5, 3.0, 10.0] {
            let mut a: EngineSolver<F64> = EngineSolver::new();
            let mut b: EngineSolver<F64> = EngineSolver::new();
            a.reconfigure(6, F64(scale));
            b.reconfigure(6, F64(factor * scale));
            let volume_a = a.piston_area.0 * a.crank_radius.0;
            let volume_b = b.piston_area.0 * b.crank_radius.0;
            assert!((volume_b / (factor * volume_a) - 1.0).abs() <= 1e-9);
            let growth = b.clearance_volume.0 / (factor * a.clearance_volume.0);
            assert!((growth - 1.0).abs() <= 1e-9);
            assert_eq!(numbers(&a.phase_offsets), numbers(&b.phase_offsets));
        }
    }
}

#[test]
fn samples_keep_headroom() {
    let mut draws = Draws(31);
    let noise: Vec<[StrokeNoise<F64>; MAX_CYLINDERS]> = (0..6000).map(|_| draws.frame()).collect();
    let mut synth = synthesizer(32);
    let mut shared = SharedEngineState::new();
    shared.throttle = 1.0f64.to_bits();
    let samples = synth.render(&mut shared, &noise);
    assert!(samples.iter().all(|x| x.0.abs() <= 0.801));
    assert!(samples.iter().any(|x| x.0.abs() > 0.1));
}

#[test]
fn released_gain_exceeds_one_by_a_thousandth() {
    let mut gain: AutoGain<F64> = AutoGain::new();
    assert_eq!(gain.process(F64(4.0)).0, 1.0);
    let released = 4.0 * 0.999 + 1.0 * 0.001;
    assert_eq!(gain.process(F64(4.0)).0, 4.0 / released);
    assert!(4.0 / released > 1.0);
    assert!(4.0 / released <= 1.0012);
}

#[test]
fn constant_input_never_grows() {
    for x in [-0.7, 0.0, 1e-300, 5e-324, 3.0, 1e200] {
        let mut blocker: DcBlocker<F64> = DcBlocker::new();
        blocker.process(F64(-1.0));
        let mut y = blocker.process(F64(x)).0;
        for _ in 0..2000 {
            let next = blocker.process(F64(x)).0;
            assert!(next.abs() <= y.abs());
            y = next;
        }
    }
}

#[test]
fn frames_cover_the_output() {
    assert_eq!(frame_count(0, 2), 0);
    assert_eq!(frame_count(1, 2), 1);
    assert_eq!(frame_count(8, 2), 4);
    assert_eq!(frame_count(9, 2), 5);
    assert_eq!(frame_count(5, 1), 5);
    assert_eq!(frame_count(usize::MAX, 1), usize::MAX);
    assert_eq!(frame_count(usize::MAX, usize::MAX), 1);
}

#[test]
fn every_channel_carries_the_sample_of_its_frame() {
    assert_eq!(spread(&vec![1, 2, 3], 2, 6), vec![1, 1, 2, 2, 3, 3]);
    assert_eq!(spread(&vec![1, 2, 3], 2, 5), vec![1, 1, 2, 2, 3]);
    assert_eq!(spread(&vec![1, 2, 3], 1, 3), vec![1, 2, 3]);
    assert_eq!(spread(&vec![7], 6, 4), vec![7, 7, 7, 7]);
    let none: Vec<u8> = vec![];
    assert_eq!(spread(&none, 2, 0), none);
}

#[test]
fn a_turn_leaves_the_readings_alone() {
    let mut shared = SharedEngineState::new();
    shared.rpm = 3000.0f64.to_bits();
    shared.pressures[3] = 2e5f64.to_bits();
    shared.exhaust_flows[2] = 0.25f64.to_bits();
    shared.intake_flows[1] = 0.5f64.to_bits();
    let mut pedal: Pedal<F64> = Pedal::new();
    for key in [Key::Up, Key::Down, Key::Left, Key::Right] {
        assert!(!pedal.turn(&mut shared, press(key)));
    }
    assert_eq!(shared.rpm, 3000.0f64.to_bits());
    assert_eq!(shared.pressures[3], 2e5f64.to_bits());
    assert_eq!(shared.exhaust_flows[2], 0.25f64.to_bits());
    assert_eq!(shared.intake_flows[1], 0.5f64.to_bits());
}

#[test]
fn retuning_leaves_the_pipes_alone() {
    let mut draws = Draws(33);
    let mut synth = synthesizer(34);
    synth.retune(4, F64(1.0));
    for _ in 0..50 {
        synth.frame(F64(0.5), &draws.frame());
    }
    let pipe = numbers(&synth.exhaust_pipe.history);
    let intake = numbers(&synth.intake_box.history);
    let peak = synth.agc.peak;
    let blocked = synth.dc_block.y_prev;
    let dt = synth.dt;
    synth.retune(6, F64(2.0));
    assert_eq!(synth.engine.num_cylinders, 6);
    assert_eq!(numbers(&synth.exhaust_pipe.history), pipe);
    assert_eq!(numbers(&synth.intake_box.history), intake);
    assert_eq!(synth.agc.peak, peak);
    assert_eq!(synth.dc_block.y_prev, blocked);
    assert_eq!(synth.dt, dt);
    assert_eq!(synth.sample_rate.0, 48000.0);
}
