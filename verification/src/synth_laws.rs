//! What holds of the sound engine over whole blocks of sound.

use vstd::prelude::*;

use crate::controls::{Pedal, followed};
use crate::display::{CylinderRow, row};
use crate::dsp::next_peak;
use crate::dsp_laws::{law_gain_brings_the_input_to_scale, settled};
use crate::engine::StrokeNoise;
use crate::engine_laws::{agree, law_step_needs_draws_of_its_cylinders_only};
use crate::number::Real;
use crate::premises::{Rounding, faithful_words, holds_bounds};
use crate::synth::SynthView;
use crate::telemetry::{MAX_CYLINDERS, SharedView};

verus! {

/// Settings that have not changed change nothing.
pub proof fn law_same_settings_change_nothing<R: Real>(
    synth: SynthView<R>,
    cylinders: usize,
    displacement: R,
)
    ensures
        synth.retuned(cylinders, displacement).retuned(cylinders, displacement) == synth.retuned(
            cylinders,
            displacement,
        ),
{
    let once = synth.retuned(cylinders, displacement);
    assert(once.retuned(cylinders, displacement) =~= once);
}

/// Whether two states of a sound engine are tuned alike.
pub open spec fn same_tuning<R: Real>(a: SynthView<R>, b: SynthView<R>) -> bool {
    &&& a.engine.same_build(b.engine)
    &&& a.header_delays.len() == b.header_delays.len()
    &&& a.sample_rate == b.sample_rate
    &&& a.dt == b.dt
}

/// Sound alone does not change the tuning: the engine keeps its build and its headers through
/// any block.
pub proof fn law_sound_keeps_the_tuning<R: Real>(
    synth: SynthView<R>,
    throttle: R,
    noise: Seq<[StrokeNoise<R>; MAX_CYLINDERS]>,
)
    ensures
        same_tuning(synth.after(throttle, noise), synth),
    decreases noise.len(),
{
    if noise.len() > 0 {
        law_sound_keeps_the_tuning(synth, throttle, noise.drop_last());
    }
}

/// The exhaust sounds of cylinder `i`, frame by frame.
pub open spec fn exhaust_signal<R: Real>(
    synth: SynthView<R>,
    throttle: R,
    noise: Seq<[StrokeNoise<R>; MAX_CYLINDERS]>,
    i: int,
) -> Seq<R> {
    Seq::new(
        noise.len(),
        |k: int|
            synth.after(throttle, noise.take(k)).engine.exhaust_sounds(
                synth.dt,
                throttle,
                noise[k]@,
            )[i],
    )
}

/// The headers delay by a constant time: what is under way in the header of a cylinder is what
/// was under way at first, followed by all the exhaust sounds since, less as many of them, the
/// oldest first, as frames have passed.
pub proof fn law_headers_delay_by_a_constant_time<R: Real>(
    synth: SynthView<R>,
    throttle: R,
    noise: Seq<[StrokeNoise<R>; MAX_CYLINDERS]>,
    i: int,
)
    requires
        0 <= i < synth.header_delays.len(),
        synth.header_delays[i].len() > 0,
    ensures
        synth.after(throttle, noise).header_delays[i] == (synth.header_delays[i] + exhaust_signal(
            synth,
            throttle,
            noise,
            i,
        )).skip(noise.len() as int),
    decreases noise.len(),
{
    let pending = synth.header_delays[i];
    let signal = exhaust_signal(synth, throttle, noise, i);
    let end = synth.after(throttle, noise);
    if noise.len() > 0 {
        let shorter = noise.drop_last();
        law_headers_delay_by_a_constant_time(synth, throttle, shorter, i);
        law_sound_keeps_the_tuning(synth, throttle, shorter);
        let before = exhaust_signal(synth, throttle, shorter, i);
        assert forall|k: int| 0 <= k < before.len() implies before[k] == signal[k] by {
            assert(shorter.take(k) =~= noise.take(k));
        }
        assert(noise.take(noise.len() - 1) =~= shorter);
        assert(signal =~= before.push(signal.last()));
    }
    assert(end.header_delays[i] =~= (pending + signal).skip(noise.len() as int));
}

/// An engine without cylinders stays as it was configured.
proof fn lemma_no_cylinders_no_change<R: Real>(
    synth: SynthView<R>,
    throttle: R,
    noise: Seq<[StrokeNoise<R>; MAX_CYLINDERS]>,
    displacement: R,
)
    requires
        synth.header_delays.len() == 0,
        synth == synth.retuned(0, displacement),
    ensures
        synth.after(throttle, noise) == synth.after(throttle, noise).retuned(0, displacement),
    decreases noise.len(),
{
    law_sound_keeps_the_tuning(synth, throttle, noise);
    if noise.len() > 0 {
        lemma_no_cylinders_no_change(synth, throttle, noise.drop_last(), displacement);
        law_sound_keeps_the_tuning(synth, throttle, noise.drop_last());
        let end = synth.after(throttle, noise);
        assert(end =~= end.retuned(0, displacement));
    }
}

/// Two blocks in a row are one block.
proof fn lemma_blocks_join<R: Real>(
    synth: SynthView<R>,
    throttle: R,
    noise1: Seq<[StrokeNoise<R>; MAX_CYLINDERS]>,
    noise2: Seq<[StrokeNoise<R>; MAX_CYLINDERS]>,
)
    ensures
        synth.after(throttle, noise1).after(throttle, noise2) == synth.after(
            throttle,
            noise1 + noise2,
        ),
    decreases noise2.len(),
{
    if noise2.len() == 0 {
        assert(noise1 + noise2 =~= noise1);
    } else {
        lemma_blocks_join(synth, throttle, noise1, noise2.drop_last());
        assert((noise1 + noise2).drop_last() =~= noise1 + noise2.drop_last());
    }
}

proof fn lemma_samples_join<R: Real>(
    synth: SynthView<R>,
    throttle: R,
    noise1: Seq<[StrokeNoise<R>; MAX_CYLINDERS]>,
    noise2: Seq<[StrokeNoise<R>; MAX_CYLINDERS]>,
)
    ensures
        synth.samples(throttle, noise1) + synth.after(throttle, noise1).samples(throttle, noise2)
            == synth.samples(throttle, noise1 + noise2),
{
    let whole = noise1 + noise2;
    let left = synth.samples(throttle, noise1) + synth.after(throttle, noise1).samples(
        throttle,
        noise2,
    );
    assert forall|i: int| 0 <= i < whole.len() implies left[i] == synth.samples(
        throttle,
        whole,
    )[i] by {
        if i < noise1.len() {
            assert(whole.take(i) =~= noise1.take(i));
        } else {
            let k = i - noise1.len();
            assert(whole.take(i) =~= noise1 + noise2.take(k));
            lemma_blocks_join(synth, throttle, noise1, noise2.take(k));
        }
    }
    assert(left =~= synth.samples(throttle, whole));
}

/// Where one block ends and the next begins cannot be heard: while the settings stay as they
/// are, rendering two blocks in a row gives the samples of one block of both, leaves the sound
/// engine in the same state and, unless the second block is empty, the same readings.
pub proof fn law_block_boundaries_cannot_be_heard<R: Real>(
    synth: SynthView<R>,
    shared: SharedView,
    noise1: Seq<[StrokeNoise<R>; MAX_CYLINDERS]>,
    noise2: Seq<[StrokeNoise<R>; MAX_CYLINDERS]>,
)
    requires
        shared.cylinders == 0 || R::decoded(shared.displacement).same(
            R::decoded(shared.displacement),
        ),
    ensures
        ({
            let (synth1, samples1, shared1) = synth.rendered(shared, noise1);
            let (synth2, samples2, shared2) = synth1.rendered(shared1, noise2);
            let (synth12, samples12, shared12) = synth.rendered(shared, noise1 + noise2);
            &&& synth2 == synth12
            &&& samples1 + samples2 == samples12
            &&& noise2.len() > 0 ==> shared2 == shared12
        }),
{
    let throttle = R::decoded(shared.throttle);
    let displacement = R::decoded(shared.displacement);
    let start = synth.tuned_to(shared);
    let (synth1, samples1, shared1) = synth.rendered(shared, noise1);
    law_sound_keeps_the_tuning(start, throttle, noise1);
    if shared.cylinders == 0 && start.header_delays.len() == 0 {
        assert(start =~= start.retuned(0, displacement));
        lemma_no_cylinders_no_change(start, throttle, noise1, displacement);
    }
    assert(synth1.tuned_to(shared1) == synth1);
    lemma_blocks_join(start, throttle, noise1, noise2);
    lemma_samples_join(start, throttle, noise1, noise2);
    if noise2.len() > 0 {
        lemma_blocks_join(start, throttle, noise1, noise2.drop_last());
        assert((noise1 + noise2).drop_last() =~= noise1 + noise2.drop_last());
        let (synth2, samples2, shared2) = synth1.rendered(shared1, noise2);
        let (synth12, samples12, shared12) = synth.rendered(shared, noise1 + noise2);
        assert(shared2 =~= shared12);
    }
}

/// Every sample lies between minus one and one, whenever there is a level at all.
pub proof fn law_samples_are_held_to_the_full_scale<R: Real>(
    synth: SynthView<R>,
    throttle: R,
    noise: Seq<StrokeNoise<R>>,
)
    requires
        holds_bounds::<R>(),
        (-R::fraction(1, 1)) <= R::fraction(1, 1),
        synth.level(throttle, noise) <= synth.level(throttle, noise),
    ensures
        (-R::fraction(1, 1)) <= synth.sample(throttle, noise),
        synth.sample(throttle, noise) <= R::fraction(1, 1),
{
}

/// Whether a sample lies between -0.801 and 0.801.
pub open spec fn in_headroom<R: Real>(rounding: Rounding<R>, sample: R) -> bool {
    &&& rounding.is_finite(sample)
    &&& -(801real / 1000real) <= rounding.worth(sample) <= 801real / 1000real
}

proof fn lemma_sample_keeps_headroom<R: Real>(
    rounding: Rounding<R>,
    synth: SynthView<R>,
    throttle: R,
    noise: Seq<StrokeNoise<R>>,
)
    requires
        rounding.kept(),
        settled(rounding, synth.agc.peak),
        rounding.is_finite(synth.overdriven(throttle, noise)),
    ensures
        settled(rounding, synth.advanced(throttle, noise).agc.peak),
        in_headroom(rounding, synth.sample(throttle, noise)),
{
    let u = rounding.unit;
    let driven = synth.overdriven(throttle, noise);
    law_gain_brings_the_input_to_scale(rounding, synth.agc.peak, driven);
    let scaled = driven.spec_euclidean_or_real_div(next_peak(synth.agc.peak, driven));
    let share = R::fraction(8, 10);
    let one = R::fraction(1, 1);
    let bound = R::fraction(80098, 100000);
    let q = rounding.worth(scaled);
    let e = rounding.worth(share);
    let b = rounding.worth(bound);
    let exact = 8real / 10real;
    let limit = 80098real / 100000real;
    assert(rounding.in_range(exact));
    assert(rounding.rounds(exact, share));
    assert(rounding.in_range(limit));
    assert(rounding.rounds(limit, bound));
    assert(rounding.in_range(1real / 1real));
    assert(rounding.is_finite(one) && rounding.worth(one) == 1real);
    assert(u * exact <= 1real / 1000000real) by (nonlinear_arith)
        requires
            0real < u <= 1real / 1000000real,
            exact == 8real / 10real,
    ;
    assert(u * limit <= 1real / 1000000real) by (nonlinear_arith)
        requires
            0real < u <= 1real / 1000000real,
            limit == 80098real / 100000real,
    ;
    assert(-b <= q * e <= b) by (nonlinear_arith)
        requires
            -(10012real / 10000real) <= q <= 10012real / 10000real,
            8real / 10real - 1real / 1000000real <= e <= 8real / 10real + 1real / 1000000real,
            b >= 80098real / 100000real - 1real / 1000000real,
    ;
    assert(rounding.is_finite(bound.spec_neg()) && rounding.worth(bound.spec_neg()) == -b);
    assert(rounding.is_finite(one.spec_neg()) && rounding.worth(one.spec_neg()) == -1real);
    assert(rounding.uncrossed(q * e, scaled.spec_mul(share)));
    let level = scaled.spec_mul(share);
    assert(level.held(one.spec_neg(), one) == level);
}

/// Whether the overdrive of every frame of a block is finite.
pub open spec fn finitely_driven<R: Real>(
    rounding: Rounding<R>,
    synth: SynthView<R>,
    throttle: R,
    noise: Seq<[StrokeNoise<R>; MAX_CYLINDERS]>,
) -> bool {
    forall|i: int|
        0 <= i < noise.len() ==> rounding.is_finite(
            #[trigger] synth.after(throttle, noise.take(i)).overdriven(throttle, noise[i]@),
        )
}

proof fn lemma_block_leaves_the_peak_settled<R: Real>(
    rounding: Rounding<R>,
    synth: SynthView<R>,
    throttle: R,
    noise: Seq<[StrokeNoise<R>; MAX_CYLINDERS]>,
    n: int,
)
    requires
        rounding.kept(),
        settled(rounding, synth.agc.peak),
        finitely_driven(rounding, synth, throttle, noise),
        0 <= n <= noise.len(),
    ensures
        settled(rounding, synth.after(throttle, noise.take(n)).agc.peak),
    decreases n,
{
    if n > 0 {
        lemma_block_leaves_the_peak_settled(rounding, synth, throttle, noise, n - 1);
        assert(noise.take(n).drop_last() =~= noise.take(n - 1));
        assert(noise.take(n).last() == noise[n - 1]);
        let before = synth.after(throttle, noise.take(n - 1));
        assert(rounding.is_finite(before.overdriven(throttle, noise[n - 1]@)));
        lemma_sample_keeps_headroom(rounding, before, throttle, noise[n - 1]@);
    }
}

/// Every sample of a block keeps headroom, as long as the overdrive gives a finite number: it lies
/// between -0.801 and 0.801. The peak is at least one, it falls short of the overdrive by no more
/// than the thousandth that it gives way in a step, and four fifths of the quotient are played.
/// The peak is settled again for the next block.
pub proof fn law_samples_keep_headroom<R: Real>(
    rounding: Rounding<R>,
    synth: SynthView<R>,
    throttle: R,
    noise: Seq<[StrokeNoise<R>; MAX_CYLINDERS]>,
)
    requires
        rounding.kept(),
        settled(rounding, synth.agc.peak),
        finitely_driven(rounding, synth, throttle, noise),
    ensures
        forall|i: int|
            0 <= i < noise.len() ==> in_headroom(
                rounding,
                #[trigger] synth.samples(throttle, noise)[i],
            ),
        settled(rounding, synth.after(throttle, noise).agc.peak),
{
    assert forall|i: int| 0 <= i < noise.len() implies in_headroom(
        rounding,
        #[trigger] synth.samples(throttle, noise)[i],
    ) by {
        lemma_block_leaves_the_peak_settled(rounding, synth, throttle, noise, i);
        let before = synth.after(throttle, noise.take(i));
        assert(rounding.is_finite(before.overdriven(throttle, noise[i]@)));
        lemma_sample_keeps_headroom(rounding, before, throttle, noise[i]@);
    }
    lemma_block_leaves_the_peak_settled(rounding, synth, throttle, noise, noise.len() as int);
    assert(noise.take(noise.len() as int) =~= noise);
}

/// A new gain is settled, so every sound engine starts with headroom.
pub proof fn law_new_gain_is_settled<R: Real>(rounding: Rounding<R>)
    requires
        rounding.kept(),
    ensures
        settled(rounding, R::fraction(1, 1)),
{
    assert(rounding.in_range(1real / 1real));
    assert(rounding.rounds(1real / 1real, R::fraction(1, 1)));
}

/// The panel shows what the sound engine has published: the line of each cylinder tells its
/// pressure, in kilopascals, and its flows.
pub proof fn law_panel_shows_what_was_published<R: Real>(
    synth: SynthView<R>,
    shared: SharedView,
    exhausts: Seq<R>,
    intakes: Seq<R>,
    i: int,
)
    requires
        faithful_words::<R>(),
        0 <= i < shared.cylinders,
        i < shared.pressures.len(),
        i < shared.exhaust_flows.len(),
        i < shared.intake_flows.len(),
    ensures
        row::<R>(synth.published(shared, exhausts, intakes), i) == (CylinderRow {
            number: (i + 1) as usize,
            pressure_kpa: synth.engine.cylinder_pressure[i] / R::fraction(1000, 1),
            intake_flow: intakes[i],
            exhaust_flow: exhausts[i],
        }),
{
    let published = synth.published(shared, exhausts, intakes);
    assert(published.pressures[i] == synth.engine.cylinder_pressure[i].word());
    assert(published.exhaust_flows[i] == exhausts[i].word());
    assert(published.intake_flows[i] == intakes[i].word());
}

/// The sound obeys the controls: a block is rendered at the throttle that has followed the
/// pedal, and at the cylinder count and the displacement that were chosen.
pub proof fn law_sound_obeys_the_controls<R: Real>(
    synth: SynthView<R>,
    shared: SharedView,
    pedal: Pedal<R>,
    displacement: R,
    noise: Seq<[StrokeNoise<R>; MAX_CYLINDERS]>,
)
    requires
        faithful_words::<R>(),
        shared.throttle == followed(pedal).word(),
        shared.displacement == displacement.word(),
    ensures
        ({
            let tuned = synth.retuned(shared.cylinders, displacement);
            let (end, samples, _) = synth.rendered(shared, noise);
            &&& end == tuned.after(followed(pedal), noise)
            &&& samples == tuned.samples(followed(pedal), noise)
        }),
{
}

/// Whether two blocks of random draws agree on the first `n` cylinders in every frame.
pub open spec fn blocks_agree<R>(
    noise1: Seq<[StrokeNoise<R>; MAX_CYLINDERS]>,
    noise2: Seq<[StrokeNoise<R>; MAX_CYLINDERS]>,
    n: int,
) -> bool {
    &&& noise1.len() == noise2.len()
    &&& forall|k: int| 0 <= k < noise1.len() ==> agree((#[trigger] noise1[k])@, noise2[k]@, n)
}

proof fn lemma_block_needs_draws_of_its_cylinders_only<R: Real>(
    synth: SynthView<R>,
    throttle: R,
    noise1: Seq<[StrokeNoise<R>; MAX_CYLINDERS]>,
    noise2: Seq<[StrokeNoise<R>; MAX_CYLINDERS]>,
)
    requires
        blocks_agree(noise1, noise2, synth.engine.num_cylinders as int),
    ensures
        synth.after(throttle, noise1) == synth.after(throttle, noise2),
        synth.last_exhausts(throttle, noise1) == synth.last_exhausts(throttle, noise2),
        synth.last_intakes(throttle, noise1) == synth.last_intakes(throttle, noise2),
    decreases noise1.len(),
{
    if noise1.len() > 0 {
        let shorter1 = noise1.drop_last();
        let shorter2 = noise2.drop_last();
        assert(blocks_agree(shorter1, shorter2, synth.engine.num_cylinders as int)) by {
            assert forall|k: int| 0 <= k < shorter1.len() implies agree(
                (#[trigger] shorter1[k])@,
                shorter2[k]@,
                synth.engine.num_cylinders as int,
            ) by {
                assert(shorter1[k] == noise1[k]);
            }
        }
        lemma_block_needs_draws_of_its_cylinders_only(synth, throttle, shorter1, shorter2);
        law_sound_keeps_the_tuning(synth, throttle, shorter1);
        let last = synth.after(throttle, shorter1);
        assert(noise1[noise1.len() - 1] == noise1.last());
        law_step_needs_draws_of_its_cylinders_only(
            last.engine,
            synth.dt,
            throttle,
            noise1.last()@,
            noise2.last()@,
        );
        assert(last.mixed_intake(throttle, noise1.last()@) == last.mixed_intake(
            throttle,
            noise2.last()@,
        ));
        assert(last.advanced(throttle, noise1.last()@) =~= last.advanced(
            throttle,
            noise2.last()@,
        ));
    }
}

/// The random draws for cylinders that the engine does not have play no part in a block.
pub proof fn law_block_needs_draws_of_its_cylinders_only<R: Real>(
    synth: SynthView<R>,
    shared: SharedView,
    noise1: Seq<[StrokeNoise<R>; MAX_CYLINDERS]>,
    noise2: Seq<[StrokeNoise<R>; MAX_CYLINDERS]>,
)
    requires
        blocks_agree(noise1, noise2, shared.cylinders as int),
    ensures
        synth.rendered(shared, noise1) == synth.rendered(shared, noise2),
{
    let start = synth.tuned_to(shared);
    let throttle = R::decoded(shared.throttle);
    let n = shared.cylinders as int;
    lemma_block_needs_draws_of_its_cylinders_only(start, throttle, noise1, noise2);
    assert forall|k: int| 0 <= k < noise1.len() implies start.samples(throttle, noise1)[k]
        == start.samples(throttle, noise2)[k] by {
        let part1 = noise1.take(k);
        let part2 = noise2.take(k);
        assert forall|j: int| 0 <= j < k implies agree(
            (#[trigger] part1[j])@,
            part2[j]@,
            n,
        ) by {
            assert(part1[j] == noise1[j]);
        }
        lemma_block_needs_draws_of_its_cylinders_only(start, throttle, part1, part2);
        law_sound_keeps_the_tuning(start, throttle, part1);
        let now = start.after(throttle, part1);
        assert(agree(noise1[k]@, noise2[k]@, n));
        law_step_needs_draws_of_its_cylinders_only(
            now.engine,
            now.dt,
            throttle,
            noise1[k]@,
            noise2[k]@,
        );
    }
    assert(start.samples(throttle, noise1) =~= start.samples(throttle, noise2));
}

} // verus!
