//! From the engine to the loudspeaker: the pipes, the mix and the blocks of sound.

use vstd::prelude::*;

use crate::dsp::{
    AutoGain, ConvolutionFilter, DcBlocker, FilterView, HeaderDelay, blocked, dot, heard_one,
    impulse, next_peak,
};
use crate::engine::{EngineSolver, EngineView, StrokeNoise, blank_engine};
use crate::number::{deterministic, Real};
use crate::telemetry::{MAX_CYLINDERS, SharedEngineState, SharedView};

verus! {

/// The number of taps of the exhaust pipe.
pub const EXHAUST_TAPS: usize = 1024;

/// The number of taps of the intake box.
pub const INTAKE_TAPS: usize = 512;

/// How many samples the header of cylinder `i` delays its exhaust. The cylinders are grouped in
/// pairs, and each deviates a little of its own, so that no common echo stands out.
pub open spec fn header_samples<R: Real>(i: int, sample_rate: R) -> usize {
    let bank_pos = R::fraction((i / 2) as u64, 1);
    let imperfection = (R::fraction(i as u64, 1) * R::fraction(1618, 1000)).sine() * R::fraction(
        4,
        10,
    );
    let delay_ms = R::fraction(15, 10) + bank_pos * R::fraction(12, 10) + imperfection;
    (delay_ms / R::fraction(1000, 1) * sample_rate).whole()
}

/// A delay line under way with nothing but silence.
pub open spec fn silent_line<R: Real>(samples: usize) -> Seq<R> {
    Seq::new(
        if samples < 1 {
            1
        } else {
            samples as nat
        },
        |i: int| R::fraction(0, 1),
    )
}

/// The sum of the first `n` numbers, taken in order.
pub open spec fn total<R: Real>(xs: Seq<R>, n: int) -> R
    decreases n,
{
    if n <= 0 {
        R::fraction(0, 1)
    } else {
        total(xs, n - 1) + xs[n - 1]
    }
}

/// The whole sound engine.
pub struct Synthesizer<R> {
    pub engine: EngineSolver<R>,
    pub header_delays: Vec<HeaderDelay<R>>,
    pub exhaust_pipe: ConvolutionFilter<R>,
    pub intake_box: ConvolutionFilter<R>,
    pub agc: AutoGain<R>,
    pub dc_block: DcBlocker<R>,
    pub sample_rate: R,
    pub dt: R,
}

/// What a [`Synthesizer`] is, with its parts as what they are.
#[verifier::ext_equal]
pub struct SynthView<R> {
    pub engine: EngineView<R>,
    pub header_delays: Seq<Seq<R>>,
    pub exhaust_pipe: FilterView<R>,
    pub intake_box: FilterView<R>,
    pub agc: AutoGain<R>,
    pub dc_block: DcBlocker<R>,
    pub sample_rate: R,
    pub dt: R,
}

impl<R> View for Synthesizer<R> {
    type V = SynthView<R>;

    open spec fn view(&self) -> SynthView<R> {
        SynthView {
            engine: self.engine@,
            header_delays: self.header_delays@.map_values(|line: HeaderDelay<R>| line@),
            exhaust_pipe: self.exhaust_pipe@,
            intake_box: self.intake_box@,
            agc: self.agc,
            dc_block: self.dc_block,
            sample_rate: self.sample_rate,
            dt: self.dt,
        }
    }
}

impl<R> Synthesizer<R> {
    /// Whether all parts are well formed, the engine has no more cylinders than there can be,
    /// and it has no headers yet or one for every cylinder.
    pub open spec fn well_formed(&self) -> bool {
        &&& self.engine.num_cylinders <= MAX_CYLINDERS
        &&& self.header_delays@.len() == 0 || self.tuned()
        &&& self.exhaust_pipe.well_formed()
        &&& self.intake_box.well_formed()
        &&& forall|i: int|
            0 <= i < self.header_delays@.len() ==> (#[trigger] self.header_delays@[i]).well_formed()
    }

    /// Whether every cylinder has its header.
    pub open spec fn tuned(&self) -> bool {
        self.header_delays@.len() == self.engine.num_cylinders
    }
}

/// A sound engine that has not been tuned yet.
pub open spec fn untuned<R: Real>(
    sample_rate: R,
    exhaust_noise: Seq<R>,
    intake_noise: Seq<R>,
) -> SynthView<R> {
    let zero = R::fraction(0, 1);
    SynthView {
        engine: blank_engine::<R>().reconfigured(8, R::fraction(1, 1)),
        header_delays: Seq::empty(),
        exhaust_pipe: FilterView {
            ir: Seq::new(
                exhaust_noise.len(),
                |i: int|
                    impulse(
                        sample_rate,
                        R::fraction(150, 1),
                        R::fraction(120, 1),
                        exhaust_noise,
                        i + 1,
                    ),
            ),
            heard: Seq::new(exhaust_noise.len(), |i: int| zero),
        },
        intake_box: FilterView {
            ir: Seq::new(
                intake_noise.len(),
                |i: int|
                    impulse(
                        sample_rate,
                        R::fraction(240, 1),
                        R::fraction(15, 1),
                        intake_noise,
                        i + 1,
                    ),
            ),
            heard: Seq::new(intake_noise.len(), |i: int| zero),
        },
        agc: AutoGain { peak: R::fraction(1, 1) },
        dc_block: DcBlocker { x_prev: zero, y_prev: zero },
        sample_rate,
        dt: R::fraction(1, 1) / sample_rate,
    }
}

impl<R: Real> SynthView<R> {
    /// Whether the engine has to be built anew for these settings.
    pub open spec fn out_of_tune(self, cylinders: usize, displacement: R) -> bool {
        ||| cylinders != self.engine.num_cylinders
        ||| !displacement.same(self.engine.displacement_scale)
        ||| self.header_delays.len() == 0
    }

    /// The sound engine at these settings. Where they are new the engine is reconfigured and its
    /// headers are silent; the pipes ring on.
    pub open spec fn retuned(self, cylinders: usize, displacement: R) -> SynthView<R> {
        if self.out_of_tune(cylinders, displacement) {
            SynthView {
                engine: self.engine.reconfigured(cylinders, displacement),
                header_delays: Seq::new(
                    cylinders as nat,
                    |i: int| silent_line::<R>(header_samples(i, self.sample_rate)),
                ),
                ..self
            }
        } else {
            self
        }
    }

    /// The exhaust sounds that reach the pipe in the next frame.
    pub open spec fn arriving(self) -> Seq<R> {
        self.header_delays.map_values(|line: Seq<R>| line.first())
    }

    /// What the exhaust pipe hears in the next frame.
    pub open spec fn mixed_exhaust(self) -> R {
        total(self.arriving(), self.engine.num_cylinders as int)
    }

    /// What the intake box hears in the next frame.
    pub open spec fn mixed_intake(self, throttle: R, noise: Seq<StrokeNoise<R>>) -> R {
        total(
            self.engine.intake_sounds(self.dt, throttle, noise),
            self.engine.num_cylinders as int,
        )
    }

    /// The sum of what both pipes answer in the next frame. The intake is heard the more the
    /// further the throttle opens.
    pub open spec fn mix(self, throttle: R, noise: Seq<StrokeNoise<R>>) -> R {
        let exhaust = dot(
            heard_one(self.exhaust_pipe.heard, self.mixed_exhaust()),
            self.exhaust_pipe.ir,
            self.exhaust_pipe.ir.len() as int,
        );
        let intake = dot(
            heard_one(self.intake_box.heard, self.mixed_intake(throttle, noise)),
            self.intake_box.ir,
            self.intake_box.ir.len() as int,
        );
        exhaust + intake * (R::fraction(2, 10) + throttle * R::fraction(8, 10))
    }

    /// The next frame, driven into saturation the more the further the throttle opens.
    pub open spec fn overdriven(self, throttle: R, noise: Seq<StrokeNoise<R>>) -> R {
        let drive = R::fraction(3, 1) + throttle * R::fraction(15, 1);
        (blocked(self.dc_block, self.mix(throttle, noise)) * drive).hyperbolic_tangent()
            / drive.hyperbolic_tangent()
    }

    /// The level of the next frame, four fifths of what the gain makes of it.
    pub open spec fn level(self, throttle: R, noise: Seq<StrokeNoise<R>>) -> R {
        let driven = self.overdriven(throttle, noise);
        driven / next_peak(self.agc.peak, driven) * R::fraction(8, 10)
    }

    /// The sample of the next frame: its level, held between minus one and one.
    pub open spec fn sample(self, throttle: R, noise: Seq<StrokeNoise<R>>) -> R {
        self.level(throttle, noise).held(-R::fraction(1, 1), R::fraction(1, 1))
    }

    /// The sound engine after the next frame.
    pub open spec fn advanced(self, throttle: R, noise: Seq<StrokeNoise<R>>) -> SynthView<R> {
        let mix = self.mix(throttle, noise);
        SynthView {
            engine: self.engine.stepped(self.dt, throttle, noise),
            header_delays: Seq::new(
                self.header_delays.len(),
                |i: int|
                    self.header_delays[i].drop_first().push(
                        self.engine.exhaust_sounds(self.dt, throttle, noise)[i],
                    ),
            ),
            exhaust_pipe: FilterView {
                heard: heard_one(self.exhaust_pipe.heard, self.mixed_exhaust()),
                ..self.exhaust_pipe
            },
            intake_box: FilterView {
                heard: heard_one(self.intake_box.heard, self.mixed_intake(throttle, noise)),
                ..self.intake_box
            },
            agc: AutoGain { peak: next_peak(self.agc.peak, self.overdriven(throttle, noise)) },
            dc_block: DcBlocker { x_prev: mix, y_prev: blocked(self.dc_block, mix) },
            ..self
        }
    }

    /// The sound engine after a block of frames.
    pub open spec fn after(
        self,
        throttle: R,
        noise: Seq<[StrokeNoise<R>; MAX_CYLINDERS]>,
    ) -> SynthView<R>
        decreases noise.len(),
    {
        if noise.len() == 0 {
            self
        } else {
            self.after(throttle, noise.drop_last()).advanced(throttle, noise.last()@)
        }
    }

    /// The samples of a block of frames.
    pub open spec fn samples(
        self,
        throttle: R,
        noise: Seq<[StrokeNoise<R>; MAX_CYLINDERS]>,
    ) -> Seq<R> {
        Seq::new(
            noise.len(),
            |i: int| self.after(throttle, noise.take(i)).sample(throttle, noise[i]@),
        )
    }

    /// The exhaust sounds of the last frame of a block; silence if the block is empty.
    pub open spec fn last_exhausts(
        self,
        throttle: R,
        noise: Seq<[StrokeNoise<R>; MAX_CYLINDERS]>,
    ) -> Seq<R> {
        if noise.len() == 0 {
            Seq::new(MAX_CYLINDERS as nat, |i: int| R::fraction(0, 1))
        } else {
            self.after(throttle, noise.drop_last()).engine.exhaust_sounds(
                self.dt,
                throttle,
                noise.last()@,
            )
        }
    }

    /// The intake sounds of the last frame of a block; silence if the block is empty.
    pub open spec fn last_intakes(
        self,
        throttle: R,
        noise: Seq<[StrokeNoise<R>; MAX_CYLINDERS]>,
    ) -> Seq<R> {
        if noise.len() == 0 {
            Seq::new(MAX_CYLINDERS as nat, |i: int| R::fraction(0, 1))
        } else {
            self.after(throttle, noise.drop_last()).engine.intake_sounds(
                self.dt,
                throttle,
                noise.last()@,
            )
        }
    }

    /// The shared state with the readings of this sound engine: its speed, and for each of the
    /// cylinders the pressure and the given flows. The settings are left alone.
    pub open spec fn published(
        self,
        shared: SharedView,
        exhausts: Seq<R>,
        intakes: Seq<R>,
    ) -> SharedView {
        let turns = R::fraction(60, 1) / (R::fraction(2, 1) * R::circle());
        let n = shared.cylinders as int;
        SharedView {
            rpm: (self.engine.angular_velocity * turns).word(),
            pressures: written(shared.pressures, self.engine.cylinder_pressure, n),
            exhaust_flows: written(shared.exhaust_flows, exhausts, n),
            intake_flows: written(shared.intake_flows, intakes, n),
            ..shared
        }
    }

    /// The sound engine at the settings of the shared state.
    pub open spec fn tuned_to(self, shared: SharedView) -> SynthView<R> {
        self.retuned(shared.cylinders, R::decoded(shared.displacement))
    }

    /// What a block of sound does: the sound engine after it, its samples, and the shared state
    /// with the readings taken at its end.
    pub open spec fn rendered(
        self,
        shared: SharedView,
        noise: Seq<[StrokeNoise<R>; MAX_CYLINDERS]>,
    ) -> (SynthView<R>, Seq<R>, SharedView) {
        let synth = self.tuned_to(shared);
        let throttle = R::decoded(shared.throttle);
        let end = synth.after(throttle, noise);
        (
            end,
            synth.samples(throttle, noise),
            end.published(
                shared,
                synth.last_exhausts(throttle, noise),
                synth.last_intakes(throttle, noise),
            ),
        )
    }
}

/// The words with the first `n` of them replaced by those of `values`.
pub open spec fn written<R: Real>(words: Seq<u64>, values: Seq<R>, n: int) -> Seq<u64> {
    Seq::new(
        words.len(),
        |i: int|
            if i < n {
                values[i].word()
            } else {
                words[i]
            },
    )
}

/// Sends one exhaust sound through each of the headers and returns the sum of what comes out.
fn pass_headers<R: Real>(
    delays: &mut Vec<HeaderDelay<R>>,
    sounds: &[R; MAX_CYLINDERS],
) -> (sum: R)
    requires
        old(delays)@.len() <= MAX_CYLINDERS,
        forall|i: int| 0 <= i < old(delays)@.len() ==> (#[trigger] old(delays)@[i]).well_formed(),
    ensures
        final(delays)@.len() == old(delays)@.len(),
        forall|i: int|
            0 <= i < final(delays)@.len() ==> (#[trigger] final(delays)@[i]).well_formed(),
        forall|i: int|
            0 <= i < final(delays)@.len() ==> (#[trigger] final(delays)@[i])@ == old(
                delays,
            )@[i]@.drop_first().push(sounds[i]),
        deterministic::<R>() ==> sum == total(
            old(delays)@.map_values(|line: HeaderDelay<R>| line@.first()),
            old(delays)@.len() as int,
        ),
{
    let ghost lines = delays@;
    let ghost firsts = lines.map_values(|line: HeaderDelay<R>| line@.first());
    let n: usize = delays.len();
    let mut sum = R::ratio(0, 1);
    let mut i: usize = 0;
    while i < n
        invariant
            i <= n,
            n <= MAX_CYLINDERS,
            delays@.len() == n,
            lines.len() == n,
            firsts == lines.map_values(|line: HeaderDelay<R>| line@.first()),
            forall|j: int| 0 <= j < n ==> (#[trigger] delays@[j]).well_formed(),
            forall|j: int| i <= j < n ==> delays@[j] == lines[j],
            forall|j: int|
                0 <= j < i ==> (#[trigger] delays@[j])@ == lines[j]@.drop_first().push(sounds[j]),
            deterministic::<R>() ==> sum == total(firsts, i as int),
        decreases n - i,
    {
        sum = sum.add(delays[i].process(sounds[i]));
        i = i + 1;
    }
    sum
}

/// The sum of the first `n` numbers.
fn add_up<R: Real>(xs: &[R; MAX_CYLINDERS], n: usize) -> (sum: R)
    requires
        n <= MAX_CYLINDERS,
    ensures
        deterministic::<R>() ==> sum == total(xs@, n as int),
{
    let mut sum = R::ratio(0, 1);
    let mut i: usize = 0;
    while i < n
        invariant
            i <= n,
            n <= MAX_CYLINDERS,
            deterministic::<R>() ==> sum == total(xs@, i as int),
        decreases n - i,
    {
        sum = sum.add(xs[i]);
        i = i + 1;
    }
    sum
}

/// The number of frames in `len` places of output, the last of them possibly cut short.
pub fn frame_count(len: usize, channels: usize) -> (frames: usize)
    requires
        channels > 0,
    ensures
        frames == (len + channels - 1) / (channels as int),
{
    let whole: usize = len / channels;
    let rest: usize = len % channels;
    proof {
        let n = channels as int;
        vstd::arithmetic::div_mod::lemma_fundamental_div_mod(len as int, n);
        assert(whole * n == n * whole) by (nonlinear_arith);
        if rest > 0 {
            assert((whole + 1) * n == whole * n + n) by (nonlinear_arith);
            assert(whole < len) by (nonlinear_arith)
                requires
                    len == n * whole + rest,
                    rest > 0,
                    n > 0,
                    whole >= 0,
            ;
            vstd::arithmetic::div_mod::lemma_fundamental_div_mod_converse(
                len + n - 1,
                n,
                whole + 1,
                rest - 1,
            );
        } else {
            vstd::arithmetic::div_mod::lemma_fundamental_div_mod_converse(
                len + n - 1,
                n,
                whole as int,
                n - 1,
            );
        }
    }
    if rest > 0 {
        whole + 1
    } else {
        whole
    }
}

/// The output for `len` places: every channel of a frame carries the sample of that frame.
pub fn spread<T: Copy>(samples: &Vec<T>, channels: usize, len: usize) -> (data: Vec<T>)
    requires
        channels > 0,
        samples@.len() == (len + channels - 1) / (channels as int),
    ensures
        data@.len() == len,
        forall|j: int| 0 <= j < len ==> data@[j] == samples@[j / (channels as int)],
{
    let mut data: Vec<T> = Vec::new();
    let mut j: usize = 0;
    while j < len
        invariant
            channels > 0,
            samples@.len() == (len + channels - 1) / (channels as int),
            j <= len,
            data@.len() == j,
            forall|i: int| 0 <= i < j ==> data@[i] == samples@[i / (channels as int)],
        decreases len - j,
    {
        proof {
            let n = channels as int;
            vstd::arithmetic::div_mod::lemma_div_is_ordered(j + n, len + n - 1, n);
            vstd::arithmetic::div_mod::lemma_div_plus_one(j as int, n);
        }
        data.push(samples[j / channels]);
        j = j + 1;
    }
    data
}

impl<R: Real> Synthesizer<R> {
    /// A sound engine at `sample_rate`. The noise that colours the pipes is to be drawn between
    /// -1 and 1.
    pub fn new(sample_rate: R, exhaust_noise: &Vec<R>, intake_noise: &Vec<R>) -> (synth: Self)
        requires
            exhaust_noise@.len() == EXHAUST_TAPS,
            intake_noise@.len() == INTAKE_TAPS,
        ensures
            synth.well_formed(),
            synth.header_delays@.len() == 0,
            synth.sample_rate == sample_rate,
            deterministic::<R>() ==> synth@ == untuned(
                sample_rate,
                exhaust_noise@,
                intake_noise@,
            ),
    {
        let synth = Synthesizer {
            engine: EngineSolver::new(),
            header_delays: Vec::new(),
            exhaust_pipe: ConvolutionFilter::new(
                sample_rate,
                R::ratio(150, 1),
                R::ratio(120, 1),
                exhaust_noise,
            ),
            intake_box: ConvolutionFilter::new(
                sample_rate,
                R::ratio(240, 1),
                R::ratio(15, 1),
                intake_noise,
            ),
            agc: AutoGain::new(),
            dc_block: DcBlocker::new(),
            sample_rate,
            dt: R::ratio(1, 1).div(sample_rate),
        };
        assert(deterministic::<R>() ==> synth@ =~= untuned(
            sample_rate,
            exhaust_noise@,
            intake_noise@,
        ));
        synth
    }

    /// How many samples the header of cylinder `i` delays its exhaust.
    fn header_length(&self, i: usize) -> (samples: usize)
        ensures
            deterministic::<R>() ==> samples == header_samples(i as int, self.sample_rate),
    {
        let bank_pos = R::ratio((i / 2) as u64, 1);
        let imperfection = R::ratio(i as u64, 1).mul(R::ratio(1618, 1000)).sin().mul(
            R::ratio(4, 10),
        );
        let delay_ms = R::ratio(15, 10).add(bank_pos.mul(R::ratio(12, 10))).add(imperfection);
        delay_ms.div(R::ratio(1000, 1)).mul(self.sample_rate).to_usize()
    }

    /// Brings the sound engine to these settings.
    pub fn retune(&mut self, cylinders: usize, displacement: R)
        requires
            old(self).well_formed(),
            cylinders <= MAX_CYLINDERS,
        ensures
            final(self).well_formed(),
            final(self).tuned(),
            final(self).engine.num_cylinders == cylinders,
            final(self).engine@.same_base(old(self).engine@),
            final(self).engine.crank_angle == old(self).engine.crank_angle,
            final(self).engine.angular_velocity == old(self).engine.angular_velocity,
            final(self)@ == (SynthView {
                engine: final(self)@.engine,
                header_delays: final(self)@.header_delays,
                ..old(self)@
            }),
            deterministic::<R>() ==> final(self)@ == old(self)@.retuned(cylinders, displacement),
    {
        if cylinders != self.engine.num_cylinders || !displacement.eq(
            self.engine.displacement_scale,
        ) || self.header_delays.len() == 0 {
            self.engine.reconfigure(cylinders, displacement);
            let mut delays: Vec<HeaderDelay<R>> = Vec::new();
            let mut i: usize = 0;
            while i < cylinders
                invariant
                    i <= cylinders,
                    delays@.len() == i,
                    forall|j: int| 0 <= j < i ==> (#[trigger] delays@[j]).well_formed(),
                    deterministic::<R>() ==> forall|j: int|
                        0 <= j < i ==> (#[trigger] delays@[j])@ == silent_line::<R>(
                            header_samples(j, self.sample_rate),
                        ),
                decreases cylinders - i,
            {
                let line = HeaderDelay::new(self.header_length(i));
                assert(deterministic::<R>() ==> line@ =~= silent_line::<R>(
                    header_samples(i as int, self.sample_rate),
                ));
                delays.push(line);
                i = i + 1;
            }
            self.header_delays = delays;
            assert(deterministic::<R>() ==> self@ =~= old(self)@.retuned(cylinders, displacement));
        }
    }

    /// Computes one frame: its sample, and the exhaust and intake sounds of the cylinders.
    pub fn frame(
        &mut self,
        throttle: R,
        noise: &[StrokeNoise<R>; MAX_CYLINDERS],
    ) -> (frame: (R, [R; MAX_CYLINDERS], [R; MAX_CYLINDERS]))
        requires
            old(self).well_formed(),
            old(self).tuned(),
        ensures
            final(self).well_formed(),
            final(self).tuned(),
            final(self).engine@.same_build(old(self).engine@),
            final(self).sample_rate == old(self).sample_rate,
            final(self).dt == old(self).dt,
            deterministic::<R>() ==> final(self)@ == old(self)@.advanced(throttle, noise@),
            deterministic::<R>() ==> frame.0 == old(self)@.sample(throttle, noise@),
            deterministic::<R>() ==> frame.1@ == old(self)@.engine.exhaust_sounds(
                old(self).dt,
                throttle,
                noise@,
            ),
            deterministic::<R>() ==> frame.2@ == old(self)@.engine.intake_sounds(
                old(self).dt,
                throttle,
                noise@,
            ),
    {
        let ghost start = self@;
        let n: usize = self.engine.num_cylinders;
        let (raw_exhausts, raw_intakes) = self.engine.step(self.dt, throttle, noise);

        let ghost lines = self.header_delays@;
        let mixed_exhaust = pass_headers(&mut self.header_delays, &raw_exhausts);
        assert(start.arriving() =~= lines.map_values(|line: HeaderDelay<R>| line@.first()));
        let mixed_intake = add_up(&raw_intakes, n);
        let ex_convolved = self.exhaust_pipe.process(mixed_exhaust);
        let in_convolved = self.intake_box.process(mixed_intake);

        let drive = R::ratio(3, 1).add(throttle.mul(R::ratio(15, 1)));
        let intake_vol = R::ratio(2, 10).add(throttle.mul(R::ratio(8, 10)));

        let final_mix = ex_convolved.add(in_convolved.mul(intake_vol));
        let blocked = self.dc_block.process(final_mix);
        let overdriven = blocked.mul(drive).tanh().div(drive.tanh());
        let normalized = self.agc.process(overdriven);
        let sample = normalized.mul(R::ratio(8, 10)).clamp(R::ratio(1, 1).neg(), R::ratio(1, 1));
        assert(deterministic::<R>() ==> self@.header_delays =~= start.advanced(
            throttle,
            noise@,
        ).header_delays);
        assert(deterministic::<R>() ==> self@ =~= start.advanced(throttle, noise@));
        (sample, raw_exhausts, raw_intakes)
    }

    /// Writes the readings into the shared state.
    pub fn publish(
        &self,
        shared: &mut SharedEngineState,
        exhausts: &[R; MAX_CYLINDERS],
        intakes: &[R; MAX_CYLINDERS],
    )
        requires
            old(shared).cylinders <= MAX_CYLINDERS,
        ensures
            final(shared)@ == (SharedView {
                rpm: final(shared).rpm,
                pressures: final(shared).pressures@,
                exhaust_flows: final(shared).exhaust_flows@,
                intake_flows: final(shared).intake_flows@,
                ..old(shared)@
            }),
            forall|i: int|
                old(shared).cylinders <= i < MAX_CYLINDERS ==> {
                    &&& final(shared)@.pressures[i] == old(shared)@.pressures[i]
                    &&& final(shared)@.exhaust_flows[i] == old(shared)@.exhaust_flows[i]
                    &&& final(shared)@.intake_flows[i] == old(shared)@.intake_flows[i]
                },
            deterministic::<R>() ==> final(shared)@ == self@.published(
                old(shared)@,
                exhausts@,
                intakes@,
            ),
    {
        let turns = R::ratio(60, 1).div(R::ratio(2, 1).mul(R::pi()));
        shared.rpm = self.engine.angular_velocity.mul(turns).to_bits();
        let n: usize = shared.cylinders;
        let mut pressure_words = shared.pressures;
        let mut exhaust_words = shared.exhaust_flows;
        let mut intake_words = shared.intake_flows;
        let mut i: usize = 0;
        while i < n
            invariant
                i <= n,
                n <= MAX_CYLINDERS,
                forall|j: int|
                    n <= j < MAX_CYLINDERS ==> {
                        &&& pressure_words[j] == old(shared)@.pressures[j]
                        &&& exhaust_words[j] == old(shared)@.exhaust_flows[j]
                        &&& intake_words[j] == old(shared)@.intake_flows[j]
                    },
                deterministic::<R>() ==> pressure_words@ == written(
                    old(shared)@.pressures,
                    self@.engine.cylinder_pressure,
                    i as int,
                ),
                deterministic::<R>() ==> exhaust_words@ == written(
                    old(shared)@.exhaust_flows,
                    exhausts@,
                    i as int,
                ),
                deterministic::<R>() ==> intake_words@ == written(
                    old(shared)@.intake_flows,
                    intakes@,
                    i as int,
                ),
            decreases n - i,
        {
            pressure_words[i] = self.engine.cylinder_pressure[i].to_bits();
            exhaust_words[i] = exhausts[i].to_bits();
            intake_words[i] = intakes[i].to_bits();
            i = i + 1;
        }
        shared.pressures = pressure_words;
        shared.exhaust_flows = exhaust_words;
        shared.intake_flows = intake_words;
    }

    /// Renders a block of sound, one sample for each frame of random draws: takes the settings
    /// from the shared state, runs the frames, and leaves the readings in the shared state.
    pub fn render(
        &mut self,
        shared: &mut SharedEngineState,
        noise: &Vec<[StrokeNoise<R>; MAX_CYLINDERS]>,
    ) -> (samples: Vec<R>)
        requires
            old(self).well_formed(),
            old(shared).cylinders <= MAX_CYLINDERS,
        ensures
            final(self).well_formed(),
            final(self).tuned(),
            final(self).engine.num_cylinders == old(shared).cylinders,
            samples@.len() == noise@.len(),
            final(shared)@ == (SharedView {
                rpm: final(shared).rpm,
                pressures: final(shared).pressures@,
                exhaust_flows: final(shared).exhaust_flows@,
                intake_flows: final(shared).intake_flows@,
                ..old(shared)@
            }),
            forall|i: int|
                old(shared).cylinders <= i < MAX_CYLINDERS ==> {
                    &&& final(shared)@.pressures[i] == old(shared)@.pressures[i]
                    &&& final(shared)@.exhaust_flows[i] == old(shared)@.exhaust_flows[i]
                    &&& final(shared)@.intake_flows[i] == old(shared)@.intake_flows[i]
                },
            deterministic::<R>() ==> (final(self)@, samples@, final(shared)@) == old(
                self,
            )@.rendered(old(shared)@, noise@),
    {
        let cylinders: usize = shared.cylinders;
        self.retune(cylinders, R::from_bits(shared.displacement));
        let throttle = R::from_bits(shared.throttle);

        let ghost start = self@;
        let frames: usize = noise.len();
        let mut last_exhausts = [R::ratio(0, 1); MAX_CYLINDERS];
        let mut last_intakes = [R::ratio(0, 1); MAX_CYLINDERS];
        let mut samples: Vec<R> = Vec::new();
        let mut i: usize = 0;
        while i < frames
            invariant
                i <= frames,
                frames == noise@.len(),
                self.well_formed(),
                self.tuned(),
                self.engine.num_cylinders == cylinders,
                self.dt == start.dt,
                samples@.len() == i,
                deterministic::<R>() ==> self@ == start.after(throttle, noise@.take(i as int)),
                deterministic::<R>() ==> samples@ == start.samples(
                    throttle,
                    noise@.take(i as int),
                ),
                deterministic::<R>() ==> last_exhausts@ == start.last_exhausts(
                    throttle,
                    noise@.take(i as int),
                ),
                deterministic::<R>() ==> last_intakes@ == start.last_intakes(
                    throttle,
                    noise@.take(i as int),
                ),
            decreases frames - i,
        {
            let (sample, exhausts, intakes) = self.frame(throttle, &noise[i]);
            last_exhausts = exhausts;
            last_intakes = intakes;
            samples.push(sample);
            proof {
                let shorter = noise@.take(i as int);
                let longer = noise@.take(i + 1);
                assert(longer.drop_last() =~= shorter);
                assert forall|j: int| 0 <= j <= i implies #[trigger] longer.take(j)
                    == noise@.take(j) by {
                    assert(longer.take(j) =~= noise@.take(j));
                }
                assert forall|j: int| 0 <= j <= i implies #[trigger] shorter.take(j)
                    == noise@.take(j) by {
                    assert(shorter.take(j) =~= noise@.take(j));
                }
                assert(deterministic::<R>() ==> samples@ =~= start.samples(throttle, longer));
            }
            i = i + 1;
        }
        assert(noise@.take(frames as int) =~= noise@);
        self.publish(shared, &last_exhausts, &last_intakes);
        samples
    }
}

} // verus!
