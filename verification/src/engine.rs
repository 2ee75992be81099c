//! The physics of a four-stroke engine.

use vstd::prelude::*;

use crate::firing::{firing_phases, phase};
use crate::number::{deterministic, Real};
use crate::telemetry::MAX_CYLINDERS;

verus! {

/// The atmospheric pressure in pascals.
pub open spec fn atmosphere<R: Real>() -> R {
    R::fraction(101325, 1)
}

/// A multiple of pi.
pub open spec fn pi_times<R: Real>(num: u64, den: u64) -> R {
    R::fraction(num, den) * R::circle()
}

/// The angular velocity, in radians per second, of a number of turns per minute.
pub open spec fn speed<R: Real>(rpm: u64) -> R {
    R::fraction(rpm, 1) * (R::fraction(2, 1) * R::circle() / R::fraction(60, 1))
}

fn atmospheric_pressure<R: Real>() -> (pressure: R)
    ensures
        deterministic::<R>() ==> pressure == atmosphere::<R>(),
{
    R::ratio(101325, 1)
}

fn multiple_of_pi<R: Real>(num: u64, den: u64) -> (angle: R)
    ensures
        deterministic::<R>() ==> angle == pi_times::<R>(num, den),
{
    R::ratio(num, den).mul(R::pi())
}

fn angular_speed<R: Real>(rpm: u64) -> (velocity: R)
    ensures
        deterministic::<R>() ==> velocity == speed::<R>(rpm),
{
    R::ratio(rpm, 1).mul(R::ratio(2, 1).mul(R::pi()).div(R::ratio(60, 1)))
}

/// The engine: its build, the configuration derived from it, and the state of its motion.
pub struct EngineSolver<R> {
    pub base_crank_radius: R,
    pub base_rod_length: R,
    pub base_crank_inertia: R,
    pub base_piston_mass: R,
    pub base_bore: R,
    pub compression_ratio: R,
    pub num_cylinders: usize,
    pub displacement_scale: R,
    pub crank_radius: R,
    pub rod_length: R,
    pub piston_mass: R,
    pub piston_area: R,
    pub clearance_volume: R,
    pub cylinder_pressure: [R; MAX_CYLINDERS],
    pub prev_volume: [Option<R>; MAX_CYLINDERS],
    pub prev_cycle_angle: [R; MAX_CYLINDERS],
    pub phase_offsets: [R; MAX_CYLINDERS],
    pub crank_angle: R,
    pub angular_velocity: R,
}

/// What an [`EngineSolver`] is, with its arrays as sequences.
#[verifier::ext_equal]
pub struct EngineView<R> {
    pub base_crank_radius: R,
    pub base_rod_length: R,
    pub base_crank_inertia: R,
    pub base_piston_mass: R,
    pub base_bore: R,
    pub compression_ratio: R,
    pub num_cylinders: usize,
    pub displacement_scale: R,
    pub crank_radius: R,
    pub rod_length: R,
    pub piston_mass: R,
    pub piston_area: R,
    pub clearance_volume: R,
    pub cylinder_pressure: Seq<R>,
    pub prev_volume: Seq<Option<R>>,
    pub prev_cycle_angle: Seq<R>,
    pub phase_offsets: Seq<R>,
    pub crank_angle: R,
    pub angular_velocity: R,
}

impl<R> View for EngineSolver<R> {
    type V = EngineView<R>;

    open spec fn view(&self) -> EngineView<R> {
        EngineView {
            base_crank_radius: self.base_crank_radius,
            base_rod_length: self.base_rod_length,
            base_crank_inertia: self.base_crank_inertia,
            base_piston_mass: self.base_piston_mass,
            base_bore: self.base_bore,
            compression_ratio: self.compression_ratio,
            num_cylinders: self.num_cylinders,
            displacement_scale: self.displacement_scale,
            crank_radius: self.crank_radius,
            rod_length: self.rod_length,
            piston_mass: self.piston_mass,
            piston_area: self.piston_area,
            clearance_volume: self.clearance_volume,
            cylinder_pressure: self.cylinder_pressure@,
            prev_volume: self.prev_volume@,
            prev_cycle_angle: self.prev_cycle_angle@,
            phase_offsets: self.phase_offsets@,
            crank_angle: self.crank_angle,
            angular_velocity: self.angular_velocity,
        }
    }
}

/// The random draws of one cylinder in one step: the turbulence of either flow, between -1 and
/// 1, and the strength of a combustion, between 0.95 and 1.05.
pub struct StrokeNoise<R> {
    pub intake: R,
    pub exhaust: R,
    pub jitter: R,
}

impl<R: Copy> Clone for StrokeNoise<R> {
    fn clone(&self) -> (noise: Self)
        ensures
            noise == *self,
    {
        StrokeNoise { intake: self.intake, exhaust: self.exhaust, jitter: self.jitter }
    }
}

impl<R: Copy> Copy for StrokeNoise<R> {

}

/// What the valves meet during one step: the pressure in the intake, and which part of a
/// pressure difference evens out through either valve.
pub struct Breath<R> {
    pub intake_pressure: R,
    pub intake_rate: R,
    pub exhaust_rate: R,
}

/// Where a piston stands: how its position changes with the angle, the volume above it, and the
/// angle within the four-stroke cycle.
pub struct Pose<R> {
    pub dx_dtheta: R,
    pub volume: R,
    pub cycle_angle: R,
}

/// What one cylinder does in one step.
pub struct Stroke<R> {
    pub pressure: R,
    pub volume: R,
    pub cycle_angle: R,
    pub intake_flow: R,
    pub exhaust_flow: R,
    pub torque: R,
    pub inertia: R,
}

/// Whether the intake valve is open at an angle of the cycle.
pub open spec fn intake_open<R: Real>(cycle_angle: R) -> bool {
    cycle_angle < pi_times::<R>(105, 100) || pi_times::<R>(39, 10) < cycle_angle
}

/// Whether the exhaust valve is open at an angle of the cycle.
pub open spec fn exhaust_open<R: Real>(cycle_angle: R) -> bool {
    pi_times::<R>(29, 10) < cycle_angle || cycle_angle < pi_times::<R>(1, 10)
}

/// Whether the plug fires: the piston has just passed the top of its compression, and the engine
/// turns slower than the rev limit.
pub open spec fn sparks<R: Real>(prev_cycle_angle: R, cycle_angle: R, velocity: R) -> bool {
    &&& prev_cycle_angle < pi_times::<R>(2, 1)
    &&& pi_times::<R>(2, 1) <= cycle_angle
    &&& velocity < speed::<R>(8000)
}

/// By how much a combustion multiplies the pressure.
pub open spec fn boost<R: Real>(throttle: R, jitter: R) -> R {
    R::fraction(1, 1) + R::fraction(20, 1) * (R::fraction(1, 10) + throttle * R::fraction(9, 10))
        * jitter
}

/// The sound of a flow through a valve: the flow itself and a noise in proportion to it.
pub open spec fn flow_sound<R: Real>(flow: R, depth: R, noise: R) -> R {
    let raw = flow * R::fraction(1, 100000);
    raw + raw.magnitude() * depth * noise
}

/// The engine before its first configuration: at its idle speed, with the crank at rest angle.
pub open spec fn blank_engine<R: Real>() -> EngineView<R> {
    let zero = R::fraction(0, 1);
    EngineView {
        base_crank_radius: R::fraction(4, 100),
        base_rod_length: R::fraction(13, 100),
        base_crank_inertia: R::fraction(15, 100),
        base_piston_mass: R::fraction(4, 10),
        base_bore: R::fraction(8, 100),
        compression_ratio: R::fraction(9, 1),
        num_cylinders: 8,
        displacement_scale: R::fraction(1, 1),
        crank_radius: zero,
        rod_length: zero,
        piston_mass: zero,
        piston_area: zero,
        clearance_volume: zero,
        cylinder_pressure: Seq::new(MAX_CYLINDERS as nat, |i: int| atmosphere::<R>()),
        prev_volume: Seq::new(MAX_CYLINDERS as nat, |i: int| None),
        prev_cycle_angle: Seq::new(MAX_CYLINDERS as nat, |i: int| zero),
        phase_offsets: Seq::new(MAX_CYLINDERS as nat, |i: int| zero),
        crank_angle: zero,
        angular_velocity: speed::<R>(1000),
    }
}

/// What the valves meet in a step of length `dt` at this throttle.
pub open spec fn breath<R: Real>(dt: R, throttle: R) -> Breath<R> {
    Breath {
        intake_pressure: atmosphere::<R>() * (R::fraction(2, 10) + throttle * R::fraction(8, 10)),
        intake_rate: R::fraction(1, 1) - (-dt / R::fraction(2, 1000)).exponential(),
        exhaust_rate: R::fraction(1, 1) - (-dt / R::fraction(5, 10000)).exponential(),
    }
}

impl<R: Real> EngineView<R> {
    /// The engine of `cylinders` cylinders and the displacement `scale`: lengths grow with the
    /// cube root of the scale, masses with the scale. The cylinders start anew, filled with air
    /// at atmospheric pressure; the crank turns on.
    pub open spec fn reconfigured(self, cylinders: usize, scale: R) -> EngineView<R> {
        let s = scale.cube_root();
        let crank_radius = self.base_crank_radius * s;
        let piston_area = R::circle() * (self.base_bore * s / R::fraction(2, 1)).whole_power(2);
        let swept_volume = piston_area * (R::fraction(2, 1) * crank_radius);
        EngineView {
            num_cylinders: cylinders,
            displacement_scale: scale,
            crank_radius,
            rod_length: self.base_rod_length * s,
            piston_area,
            clearance_volume: swept_volume / (self.compression_ratio - R::fraction(1, 1)),
            piston_mass: self.base_piston_mass * scale,
            cylinder_pressure: Seq::new(MAX_CYLINDERS as nat, |i: int| atmosphere::<R>()),
            prev_volume: Seq::new(MAX_CYLINDERS as nat, |i: int| None),
            prev_cycle_angle: Seq::new(MAX_CYLINDERS as nat, |i: int| R::fraction(0, 1)),
            phase_offsets: Seq::new(
                MAX_CYLINDERS as nat,
                |i: int|
                    if i < cylinders {
                        phase::<R>(cylinders, i) * R::circle()
                    } else {
                        R::fraction(0, 1)
                    },
            ),
            ..self
        }
    }

    /// Where the piston of cylinder `i` stands.
    pub open spec fn pose(self, i: int) -> Pose<R> {
        let r = self.crank_radius;
        let l = self.rod_length;
        let theta = self.crank_angle + self.phase_offsets[i];
        let sin_t = theta.sine();
        let cos_t = theta.cosine();
        let rod_term = (l * l - r * r * sin_t * sin_t).square_root();
        let current_x = r * cos_t + rod_term;
        let angle = theta.remainder(pi_times::<R>(4, 1));
        Pose {
            dx_dtheta: -r * sin_t - (r * r * sin_t * cos_t) / rod_term,
            volume: self.clearance_volume + self.piston_area * ((r + l) - current_x),
            cycle_angle: if angle < R::fraction(0, 1) {
                angle + pi_times::<R>(4, 1)
            } else {
                angle
            },
        }
    }

    /// The pressure in cylinder `i` once its gas has adiabatically followed the piston to
    /// `volume`.
    pub open spec fn compressed(self, i: int, volume: R) -> R {
        match self.prev_volume[i] {
            Some(prev) => self.cylinder_pressure[i] * (prev / volume).power(R::fraction(14, 10)),
            None => self.cylinder_pressure[i],
        }
    }

    /// What cylinder `i` does in one step: it follows the piston, breathes in, breathes out,
    /// burns, and pushes the crank.
    pub open spec fn stroke(
        self,
        i: int,
        breath: Breath<R>,
        throttle: R,
        noise: StrokeNoise<R>,
    ) -> Stroke<R> {
        let zero = R::fraction(0, 1);
        let pose = self.pose(i);
        let p1 = self.compressed(i, pose.volume);
        let inflow = (p1 - breath.intake_pressure) * breath.intake_rate;
        let inhales = intake_open(pose.cycle_angle);
        let p2 = if inhales {
            p1 - inflow
        } else {
            p1
        };
        let outflow = (p2 - atmosphere::<R>()) * breath.exhaust_rate;
        let exhales = exhaust_open(pose.cycle_angle);
        let p3 = if exhales {
            p2 - outflow
        } else {
            p2
        };
        let p4 = if sparks(self.prev_cycle_angle[i], pose.cycle_angle, self.angular_velocity) {
            p3 * boost(throttle, noise.jitter)
        } else {
            p3
        };
        let force = (p4 - atmosphere::<R>()) * self.piston_area;
        Stroke {
            pressure: p4,
            volume: pose.volume,
            cycle_angle: pose.cycle_angle,
            intake_flow: if inhales {
                flow_sound(inflow, R::fraction(8, 10), noise.intake)
            } else {
                zero
            },
            exhaust_flow: if exhales {
                flow_sound(outflow, R::fraction(5, 10), noise.exhaust)
            } else {
                zero
            },
            torque: -force * pose.dx_dtheta,
            inertia: self.piston_mass * (pose.dx_dtheta * pose.dx_dtheta),
        }
    }

    /// The torque of the first `n` cylinders.
    pub open spec fn combustion_torque(
        self,
        breath: Breath<R>,
        throttle: R,
        noise: Seq<StrokeNoise<R>>,
        n: int,
    ) -> R
        decreases n,
    {
        if n <= 0 {
            R::fraction(0, 1)
        } else {
            self.combustion_torque(breath, throttle, noise, n - 1) + self.stroke(
                n - 1,
                breath,
                throttle,
                noise[n - 1],
            ).torque
        }
    }

    /// The inertia of the crank and the first `n` pistons.
    pub open spec fn inertia(
        self,
        breath: Breath<R>,
        throttle: R,
        noise: Seq<StrokeNoise<R>>,
        n: int,
    ) -> R
        decreases n,
    {
        if n <= 0 {
            self.base_crank_inertia * self.count() * self.displacement_scale
        } else {
            self.inertia(breath, throttle, noise, n - 1) + self.stroke(
                n - 1,
                breath,
                throttle,
                noise[n - 1],
            ).inertia
        }
    }

    /// The number of cylinders, as a number to compute with.
    pub open spec fn count(self) -> R {
        R::fraction(self.num_cylinders as u64, 1)
    }

    /// The torque of all cylinders, less friction and drag, and with the push that keeps an
    /// idling engine at a thousand turns per minute.
    pub open spec fn total_torque(self, combustion: R) -> R {
        let velocity = self.angular_velocity;
        let friction = -R::fraction(2, 100) * self.count() * self.displacement_scale * velocity;
        let drag = -R::fraction(1, 10000) * self.count() * self.displacement_scale * velocity
            * velocity.magnitude();
        let rpm_error = R::fraction(1000, 1) * R::fraction(2, 1) * R::circle() / R::fraction(60, 1)
            - velocity;
        let idle = if R::fraction(0, 1) < rpm_error {
            rpm_error * R::fraction(5, 1) * self.count() * self.displacement_scale
        } else {
            R::fraction(0, 1)
        };
        combustion + friction + drag + idle
    }

    /// The angular velocity after a torque has acted for `dt`. The crank never turns back.
    pub open spec fn next_velocity(self, torque: R, inertia: R, dt: R) -> R {
        let velocity = self.angular_velocity + (torque / inertia) * dt;
        if velocity < R::fraction(0, 1) {
            R::fraction(0, 1)
        } else {
            velocity
        }
    }

    /// The crank angle after `dt` at this velocity, less a thousand turns once it exceeds them.
    pub open spec fn next_angle(self, velocity: R, dt: R) -> R {
        let angle = self.crank_angle + velocity * dt;
        if pi_times::<R>(2000, 1) < angle {
            angle - pi_times::<R>(2000, 1)
        } else {
            angle
        }
    }

    /// The strokes of all cylinders in one step.
    pub open spec fn strokes(
        self,
        dt: R,
        throttle: R,
        noise: Seq<StrokeNoise<R>>,
    ) -> Seq<Stroke<R>> {
        Seq::new(
            self.num_cylinders as nat,
            |i: int| self.stroke(i, breath(dt, throttle), throttle, noise[i]),
        )
    }

    /// The engine after one step.
    pub open spec fn stepped(
        self,
        dt: R,
        throttle: R,
        noise: Seq<StrokeNoise<R>>,
    ) -> EngineView<R> {
        let strokes = self.strokes(dt, throttle, noise);
        let n = self.num_cylinders as int;
        let torque = self.total_torque(
            self.combustion_torque(breath(dt, throttle), throttle, noise, n),
        );
        let inertia = self.inertia(breath(dt, throttle), throttle, noise, n);
        let velocity = self.next_velocity(torque, inertia, dt);
        EngineView {
            cylinder_pressure: Seq::new(
                MAX_CYLINDERS as nat,
                |i: int|
                    if i < n {
                        strokes[i].pressure
                    } else {
                        self.cylinder_pressure[i]
                    },
            ),
            prev_volume: Seq::new(
                MAX_CYLINDERS as nat,
                |i: int|
                    if i < n {
                        Some(strokes[i].volume)
                    } else {
                        self.prev_volume[i]
                    },
            ),
            prev_cycle_angle: Seq::new(
                MAX_CYLINDERS as nat,
                |i: int|
                    if i < n {
                        strokes[i].cycle_angle
                    } else {
                        self.prev_cycle_angle[i]
                    },
            ),
            angular_velocity: velocity,
            crank_angle: self.next_angle(velocity, dt),
            ..self
        }
    }

    /// The sounds of the exhaust flows in one step; silent where there is no cylinder.
    pub open spec fn exhaust_sounds(
        self,
        dt: R,
        throttle: R,
        noise: Seq<StrokeNoise<R>>,
    ) -> Seq<R> {
        Seq::new(
            MAX_CYLINDERS as nat,
            |i: int|
                if i < self.num_cylinders {
                    self.strokes(dt, throttle, noise)[i].exhaust_flow
                } else {
                    R::fraction(0, 1)
                },
        )
    }

    /// The sounds of the intake flows in one step; silent where there is no cylinder.
    pub open spec fn intake_sounds(
        self,
        dt: R,
        throttle: R,
        noise: Seq<StrokeNoise<R>>,
    ) -> Seq<R> {
        Seq::new(
            MAX_CYLINDERS as nat,
            |i: int|
                if i < self.num_cylinders {
                    self.strokes(dt, throttle, noise)[i].intake_flow
                } else {
                    R::fraction(0, 1)
                },
        )
    }

    /// Whether two engines have the same base measures, whatever they are configured to.
    pub open spec fn same_base(self, other: EngineView<R>) -> bool {
        &&& self.base_crank_radius == other.base_crank_radius
        &&& self.base_rod_length == other.base_rod_length
        &&& self.base_crank_inertia == other.base_crank_inertia
        &&& self.base_piston_mass == other.base_piston_mass
        &&& self.base_bore == other.base_bore
        &&& self.compression_ratio == other.compression_ratio
    }

    /// Whether two engines have the same build and the same configuration, whatever their
    /// motion.
    pub open spec fn same_build(self, other: EngineView<R>) -> bool {
        self == (EngineView {
            cylinder_pressure: self.cylinder_pressure,
            prev_volume: self.prev_volume,
            prev_cycle_angle: self.prev_cycle_angle,
            crank_angle: self.crank_angle,
            angular_velocity: self.angular_velocity,
            ..other
        })
    }
}

/// What the valves meet in a step of length `dt` at this throttle.
pub fn draw_breath<R: Real>(dt: R, throttle: R) -> (b: Breath<R>)
    ensures
        deterministic::<R>() ==> b == breath(dt, throttle),
{
    let one = R::ratio(1, 1);
    Breath {
        intake_pressure: atmospheric_pressure::<R>().mul(
            R::ratio(2, 10).add(throttle.mul(R::ratio(8, 10))),
        ),
        intake_rate: one.sub(dt.neg().div(R::ratio(2, 1000)).exp()),
        exhaust_rate: one.sub(dt.neg().div(R::ratio(5, 10000)).exp()),
    }
}

/// The sound of a flow through a valve.
fn sound_of_flow<R: Real>(flow: R, depth: R, noise: R) -> (sound: R)
    ensures
        deterministic::<R>() ==> sound == flow_sound(flow, depth, noise),
{
    let raw = flow.mul(R::ratio(1, 100000));
    let turbulence = raw.abs().mul(depth).mul(noise);
    raw.add(turbulence)
}

impl<R: Real> EngineSolver<R> {
    /// An eight-cylinder engine of unit displacement, turning at its idle speed.
    pub fn new() -> (engine: Self)
        ensures
            engine.num_cylinders == 8,
            deterministic::<R>() ==> engine@ == blank_engine::<R>().reconfigured(
                8,
                R::fraction(1, 1),
            ),
    {
        let zero = R::ratio(0, 1);
        let mut engine = EngineSolver {
            base_crank_radius: R::ratio(4, 100),
            base_rod_length: R::ratio(13, 100),
            base_crank_inertia: R::ratio(15, 100),
            base_piston_mass: R::ratio(4, 10),
            base_bore: R::ratio(8, 100),
            compression_ratio: R::ratio(9, 1),
            num_cylinders: 8,
            displacement_scale: R::ratio(1, 1),
            crank_radius: zero,
            rod_length: zero,
            piston_mass: zero,
            piston_area: zero,
            clearance_volume: zero,
            cylinder_pressure: [atmospheric_pressure(); MAX_CYLINDERS],
            prev_volume: [None; MAX_CYLINDERS],
            prev_cycle_angle: [zero; MAX_CYLINDERS],
            phase_offsets: [zero; MAX_CYLINDERS],
            crank_angle: zero,
            angular_velocity: angular_speed(1000),
        };
        assert(deterministic::<R>() ==> engine@ =~= blank_engine::<R>());
        engine.reconfigure(8, R::ratio(1, 1));
        engine
    }

    /// Reconfigures the engine to `cylinders` cylinders and the displacement `scale`.
    pub fn reconfigure(&mut self, cylinders: usize, scale: R)
        ensures
            final(self)@.same_base(old(self)@),
            final(self).num_cylinders == cylinders,
            final(self).displacement_scale == scale,
            final(self).crank_angle == old(self).crank_angle,
            final(self).angular_velocity == old(self).angular_velocity,
            forall|i: int| 0 <= i < MAX_CYLINDERS ==> final(self).prev_volume[i] is None,
            deterministic::<R>() ==> final(self)@ == old(self)@.reconfigured(cylinders, scale),
    {
        self.num_cylinders = cylinders;
        self.displacement_scale = scale;

        let s = scale.cbrt();
        self.crank_radius = self.base_crank_radius.mul(s);
        self.rod_length = self.base_rod_length.mul(s);
        self.piston_area = R::pi().mul(self.base_bore.mul(s).div(R::ratio(2, 1)).powi(2));

        let swept_volume = self.piston_area.mul(R::ratio(2, 1).mul(self.crank_radius));
        self.clearance_volume = swept_volume.div(self.compression_ratio.sub(R::ratio(1, 1)));
        self.piston_mass = self.base_piston_mass.mul(scale);

        self.cylinder_pressure = [atmospheric_pressure(); MAX_CYLINDERS];
        self.prev_volume = [None; MAX_CYLINDERS];
        self.prev_cycle_angle = [R::ratio(0, 1); MAX_CYLINDERS];

        let phases = firing_phases::<R>(cylinders);
        let mut offsets = [R::ratio(0, 1); MAX_CYLINDERS];
        let mut i: usize = 0;
        while i < MAX_CYLINDERS && i < cylinders
            invariant
                i <= MAX_CYLINDERS,
                i <= cylinders,
                phases@.len() == cylinders,
                deterministic::<R>() ==> phases@ == Seq::new(
                    cylinders as nat,
                    |j: int| phase::<R>(cylinders, j),
                ),
                deterministic::<R>() ==> offsets@ == Seq::new(
                    MAX_CYLINDERS as nat,
                    |j: int|
                        if j < i {
                            phase::<R>(cylinders, j) * R::circle()
                        } else {
                            R::fraction(0, 1)
                        },
                ),
            decreases MAX_CYLINDERS - i,
        {
            offsets[i] = phases[i].mul(R::pi());
            i = i + 1;
        }
        self.phase_offsets = offsets;
        assert(deterministic::<R>() ==> self@ =~= old(self)@.reconfigured(cylinders, scale));
    }

    /// Where the piston of cylinder `i` stands.
    pub fn pose(&self, i: usize) -> (pose: Pose<R>)
        requires
            i < MAX_CYLINDERS,
        ensures
            deterministic::<R>() ==> pose == self@.pose(i as int),
    {
        let r = self.crank_radius;
        let l = self.rod_length;
        let theta = self.crank_angle.add(self.phase_offsets[i]);
        let sin_t = theta.sin();
        let cos_t = theta.cos();
        let rod_term = l.mul(l).sub(r.mul(r).mul(sin_t).mul(sin_t)).sqrt();
        let dx_dtheta = r.neg().mul(sin_t).sub(r.mul(r).mul(sin_t).mul(cos_t).div(rod_term));

        let current_x = r.mul(cos_t).add(rod_term);
        let volume = self.clearance_volume.add(self.piston_area.mul(r.add(l).sub(current_x)));

        let mut cycle_angle = theta.rem(multiple_of_pi(4, 1));
        if cycle_angle.lt(R::ratio(0, 1)) {
            cycle_angle = cycle_angle.add(multiple_of_pi(4, 1));
        }
        Pose { dx_dtheta, volume, cycle_angle }
    }

    /// What cylinder `i` does in one step.
    pub fn stroke(
        &self,
        i: usize,
        breath: &Breath<R>,
        throttle: R,
        noise: StrokeNoise<R>,
    ) -> (stroke: Stroke<R>)
        requires
            i < MAX_CYLINDERS,
        ensures
            deterministic::<R>() ==> stroke == self@.stroke(i as int, *breath, throttle, noise),
    {
        let pose = self.pose(i);
        let angle = pose.cycle_angle;
        let mut pressure = self.cylinder_pressure[i];
        let mut intake_flow = R::ratio(0, 1);
        let mut exhaust_flow = R::ratio(0, 1);

        if let Some(prev_vol) = self.prev_volume[i] {
            pressure = pressure.mul(prev_vol.div(pose.volume).powf(R::ratio(14, 10)));
        }
        let is_intake: bool = angle.lt(multiple_of_pi(105, 100)) || multiple_of_pi::<R>(39, 10).lt(
            angle,
        );
        let is_exhaust: bool = multiple_of_pi::<R>(29, 10).lt(angle) || angle.lt(
            multiple_of_pi(1, 10),
        );

        if is_intake {
            let flow = pressure.sub(breath.intake_pressure).mul(breath.intake_rate);
            pressure = pressure.sub(flow);
            intake_flow = sound_of_flow(flow, R::ratio(8, 10), noise.intake);
        }
        if is_exhaust {
            let flow = pressure.sub(atmospheric_pressure()).mul(breath.exhaust_rate);
            pressure = pressure.sub(flow);
            exhaust_flow = sound_of_flow(flow, R::ratio(5, 10), noise.exhaust);
        }
        // The spark is cut at the rev limit.
        let top: R = multiple_of_pi(2, 1);
        if self.prev_cycle_angle[i].lt(top) && top.le(angle) {
            if self.angular_velocity.lt(angular_speed(8000)) {
                let strength = R::ratio(20, 1).mul(
                    R::ratio(1, 10).add(throttle.mul(R::ratio(9, 10))),
                ).mul(noise.jitter);
                pressure = pressure.mul(R::ratio(1, 1).add(strength));
            }
        }
        let force = pressure.sub(atmospheric_pressure()).mul(self.piston_area);
        Stroke {
            pressure,
            volume: pose.volume,
            cycle_angle: angle,
            intake_flow,
            exhaust_flow,
            torque: force.neg().mul(pose.dx_dtheta),
            inertia: self.piston_mass.mul(pose.dx_dtheta.mul(pose.dx_dtheta)),
        }
    }

    /// The torque on the crank when the cylinders contribute `combustion`.
    pub fn total_torque(&self, combustion: R) -> (torque: R)
        ensures
            deterministic::<R>() ==> torque == self@.total_torque(combustion),
    {
        let count = R::ratio(self.num_cylinders as u64, 1);
        let scale = self.displacement_scale;
        let velocity = self.angular_velocity;
        let friction = R::ratio(2, 100).neg().mul(count).mul(scale).mul(velocity);
        let drag = R::ratio(1, 10000).neg().mul(count).mul(scale).mul(velocity).mul(velocity.abs());
        let rpm_error = R::ratio(1000, 1).mul(R::ratio(2, 1)).mul(R::pi()).div(
            R::ratio(60, 1),
        ).sub(velocity);
        let idle = if R::ratio(0, 1).lt(rpm_error) {
            rpm_error.mul(R::ratio(5, 1)).mul(count).mul(scale)
        } else {
            R::ratio(0, 1)
        };
        combustion.add(friction).add(drag).add(idle)
    }

    /// Turns the crank under `torque` for `dt`.
    fn turn(&mut self, torque: R, inertia: R, dt: R)
        ensures
            final(self)@ == (EngineView {
                angular_velocity: final(self).angular_velocity,
                crank_angle: final(self).crank_angle,
                ..old(self)@
            }),
            deterministic::<R>() ==> final(self).angular_velocity == old(self)@.next_velocity(
                torque,
                inertia,
                dt,
            ),
            deterministic::<R>() ==> final(self).crank_angle == old(self)@.next_angle(
                final(self).angular_velocity,
                dt,
            ),
    {
        self.angular_velocity = self.angular_velocity.add(torque.div(inertia).mul(dt));
        if self.angular_velocity.lt(R::ratio(0, 1)) {
            self.angular_velocity = R::ratio(0, 1);
        }
        self.crank_angle = self.crank_angle.add(self.angular_velocity.mul(dt));
        if multiple_of_pi::<R>(2000, 1).lt(self.crank_angle) {
            self.crank_angle = self.crank_angle.sub(multiple_of_pi(2000, 1));
        }
    }

    /// Runs the engine for `dt` and returns the sounds of the exhaust flows and of the intake
    /// flows.
    pub fn step(
        &mut self,
        dt: R,
        throttle: R,
        noise: &[StrokeNoise<R>; MAX_CYLINDERS],
    ) -> (flows: ([R; MAX_CYLINDERS], [R; MAX_CYLINDERS]))
        requires
            old(self).num_cylinders <= MAX_CYLINDERS,
        ensures
            final(self)@.same_build(old(self)@),
            forall|i: int|
                old(self).num_cylinders <= i < MAX_CYLINDERS ==> {
                    &&& final(self)@.cylinder_pressure[i] == old(self)@.cylinder_pressure[i]
                    &&& final(self)@.prev_volume[i] == old(self)@.prev_volume[i]
                    &&& final(self)@.prev_cycle_angle[i] == old(self)@.prev_cycle_angle[i]
                },
            deterministic::<R>() ==> final(self)@ == old(self)@.stepped(dt, throttle, noise@),
            deterministic::<R>() ==> flows.0@ == old(self)@.exhaust_sounds(dt, throttle, noise@),
            deterministic::<R>() ==> flows.1@ == old(self)@.intake_sounds(dt, throttle, noise@),
    {
        let ghost engine = self@;
        let ghost air = breath(dt, throttle);
        let ghost strokes = engine.strokes(dt, throttle, noise@);
        let n: usize = self.num_cylinders;
        let breath = draw_breath(dt, throttle);
        let mut pressures = self.cylinder_pressure;
        let mut volumes = self.prev_volume;
        let mut angles = self.prev_cycle_angle;
        let mut exhaust_flows = [R::ratio(0, 1); MAX_CYLINDERS];
        let mut intake_flows = [R::ratio(0, 1); MAX_CYLINDERS];
        let mut torque = R::ratio(0, 1);
        let mut inertia = self.base_crank_inertia.mul(R::ratio(n as u64, 1)).mul(
            self.displacement_scale,
        );
        let mut i: usize = 0;
        while i < n
            invariant
                i <= n,
                n == self.num_cylinders,
                n <= MAX_CYLINDERS,
                engine == self@,
                strokes == engine.strokes(dt, throttle, noise@),
                deterministic::<R>() ==> breath == air,
                air == crate::engine::breath(dt, throttle),
                forall|j: int|
                    i <= j < MAX_CYLINDERS ==> {
                        &&& pressures[j] == engine.cylinder_pressure[j]
                        &&& volumes[j] == engine.prev_volume[j]
                        &&& angles[j] == engine.prev_cycle_angle[j]
                    },
                deterministic::<R>() ==> forall|j: int|
                    0 <= j < i ==> {
                        &&& pressures[j] == strokes[j].pressure
                        &&& volumes[j] == Some(strokes[j].volume)
                        &&& angles[j] == strokes[j].cycle_angle
                        &&& exhaust_flows[j] == strokes[j].exhaust_flow
                        &&& intake_flows[j] == strokes[j].intake_flow
                    },
                deterministic::<R>() ==> forall|j: int|
                    i <= j < MAX_CYLINDERS ==> {
                        &&& exhaust_flows[j] == R::fraction(0, 1)
                        &&& intake_flows[j] == R::fraction(0, 1)
                    },
                deterministic::<R>() ==> torque == engine.combustion_torque(
                    air,
                    throttle,
                    noise@,
                    i as int,
                ),
                deterministic::<R>() ==> inertia == engine.inertia(
                    air,
                    throttle,
                    noise@,
                    i as int,
                ),
            decreases n - i,
        {
            let stroke = self.stroke(i, &breath, throttle, noise[i]);
            assert(deterministic::<R>() ==> stroke == strokes[i as int]);
            pressures[i] = stroke.pressure;
            volumes[i] = Some(stroke.volume);
            angles[i] = stroke.cycle_angle;
            exhaust_flows[i] = stroke.exhaust_flow;
            intake_flows[i] = stroke.intake_flow;
            torque = torque.add(stroke.torque);
            inertia = inertia.add(stroke.inertia);
            i = i + 1;
        }
        let torque = self.total_torque(torque);
        self.cylinder_pressure = pressures;
        self.prev_volume = volumes;
        self.prev_cycle_angle = angles;
        self.turn(torque, inertia, dt);
        assert(deterministic::<R>() ==> self@ =~= engine.stepped(dt, throttle, noise@));
        assert(deterministic::<R>() ==> exhaust_flows@ =~= engine.exhaust_sounds(
            dt,
            throttle,
            noise@,
        ));
        assert(deterministic::<R>() ==> intake_flows@ =~= engine.intake_sounds(
            dt,
            throttle,
            noise@,
        ));
        (exhaust_flows, intake_flows)
    }
}

} // verus!
