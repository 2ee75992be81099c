//! What holds of the controls, by the numbers that come out.

use vstd::prelude::*;

use crate::controls::{Input, Pedal, chosen_displacement, followed, pedal_target, quits};
use crate::number::Real;
use crate::premises::{Rounding, double_words, faithful_words};
use crate::telemetry::ONE_WORD;

verus! {

/// Whether a word stands for a displacement between a tenth and ten.
pub open spec fn displacement_in_range<R: Real>(rounding: Rounding<R>, word: u64) -> bool {
    let d = R::decoded(word);
    &&& rounding.is_finite(d)
    &&& rounding.worth(R::fraction(1, 10)) <= rounding.worth(d) <= 10real
}

/// The displacement after a number of inputs.
pub open spec fn chosen_displacement_after<R: Real>(word: u64, inputs: Seq<Input>) -> u64
    decreases inputs.len(),
{
    if inputs.len() == 0 {
        word
    } else {
        chosen_displacement::<R>(
            chosen_displacement_after::<R>(word, inputs.drop_last()),
            inputs.last(),
        )
    }
}

proof fn lemma_key_keeps_the_displacement_in_range<R: Real>(
    rounding: Rounding<R>,
    word: u64,
    input: Input,
)
    requires
        rounding.kept(),
        faithful_words::<R>(),
        displacement_in_range(rounding, word),
    ensures
        displacement_in_range(rounding, chosen_displacement::<R>(word, input)),
{
    let u = rounding.unit;
    let factor = R::fraction(11, 10);
    let low = R::fraction(1, 10);
    let high = R::fraction(10, 1);
    let one = R::fraction(1, 1);
    let d = R::decoded(word);
    let w = rounding.worth(d);
    assert(rounding.in_range(11real / 10real));
    assert(rounding.in_range(1real / 10real));
    assert(rounding.in_range(10real / 1real));
    assert(rounding.in_range(1real / 1real));
    assert(rounding.rounds(11real / 10real, factor));
    assert(rounding.rounds(1real / 10real, low));
    assert(rounding.is_finite(one) && rounding.worth(one) == 1real);
    assert(rounding.is_finite(high) && rounding.worth(high) == 10real);
    let f = rounding.worth(factor);
    assert(u * (11real / 10real) <= 2real / 1000000real && u * (1real / 10real) <= 1real
        / 1000000real) by (nonlinear_arith)
        requires
            u <= 1real / 1000000real,
    ;
    assert(1real <= f <= 2real);
    assert(w <= w * f <= 20real) by (nonlinear_arith)
        requires
            0real < w <= 10real,
            1real <= f <= 2real,
    ;
    assert(w / f <= w && w / f >= w / 2real) by (nonlinear_arith)
        requires
            0real < w,
            1real <= f <= 2real,
    ;
    let grown = d.spec_mul(factor);
    let shrunk = d.spec_euclidean_or_real_div(factor);
    assert(rounding.in_range(w * f));
    assert(rounding.in_range(w / f));
    assert(rounding.rounds(w * f, grown));
    assert(rounding.rounds(w / f, shrunk));
    assert(rounding.is_finite(d));
    assert(rounding.worth(shrunk) <= w);
    assert(rounding.worth(grown) >= w);
    assert(R::decoded(grown.lesser(high).word()) == grown.lesser(high));
    assert(R::decoded(shrunk.greater(low).word()) == shrunk.greater(low));
}

/// Whatever keys are pressed, and in whatever order, the displacement stays between a tenth and
/// ten.
pub proof fn law_displacement_stays_in_range<R: Real>(
    rounding: Rounding<R>,
    word: u64,
    inputs: Seq<Input>,
)
    requires
        rounding.kept(),
        faithful_words::<R>(),
        displacement_in_range(rounding, word),
    ensures
        displacement_in_range(rounding, chosen_displacement_after::<R>(word, inputs)),
    decreases inputs.len(),
{
    if inputs.len() > 0 {
        law_displacement_stays_in_range(rounding, word, inputs.drop_last());
        lemma_key_keeps_the_displacement_in_range(
            rounding,
            chosen_displacement_after::<R>(word, inputs.drop_last()),
            inputs.last(),
        );
    }
}

/// The displacement of a fresh shared state is in its range.
pub proof fn law_fresh_displacement_is_in_range<R: Real>(rounding: Rounding<R>)
    requires
        rounding.kept(),
        double_words::<R>(),
    ensures
        displacement_in_range(rounding, ONE_WORD),
{
    let u = rounding.unit;
    crate::engine_laws::law_words_stand_for_their_numbers();
    assert(R::decoded(ONE_WORD) == R::fraction(1, 1));
    assert(rounding.in_range(1real / 1real));
    assert(rounding.in_range(1real / 10real));
    assert(rounding.rounds(1real / 10real, R::fraction(1, 10)));
    assert(u * (1real / 10real) <= 1real / 1000000real) by (nonlinear_arith)
        requires
            u <= 1real / 1000000real,
    ;
}

/// Whether a pedal is pressed or released, and its throttle between closed and open.
pub open spec fn pedal_in_range<R: Real>(rounding: Rounding<R>, pedal: Pedal<R>) -> bool {
    &&& pedal.target_throttle == R::fraction(0, 1) || pedal.target_throttle == R::fraction(1, 1)
    &&& rounding.is_finite(pedal.actual_throttle)
    &&& 0real <= rounding.worth(pedal.actual_throttle) <= 1real
}

/// The pedal after one turn of the control loop.
pub open spec fn turned<R: Real>(pedal: Pedal<R>, input: Input) -> Pedal<R> {
    let pressed = Pedal {
        target_throttle: pedal_target(pedal.target_throttle, input),
        actual_throttle: pedal.actual_throttle,
    };
    if quits(input) {
        pressed
    } else {
        Pedal { actual_throttle: followed(pressed), ..pressed }
    }
}

/// A fifth of a gap that is at most one is less than a half, even where it is rounded.
proof fn lemma_small_change<R: Real>(rounding: Rounding<R>, gap: R, change: R, x: real)
    requires
        rounding.kept(),
        rounding.is_finite(gap),
        rounding.worth(gap) <= 1real,
        x <= rounding.worth(gap) / 5real,
        rounding.uncrossed(x, change),
    ensures
        rounding.worth(change) <= 1real / 2real,
{
    let quarter = R::fraction(1, 4);
    assert(rounding.in_range(1real / 4real));
    assert(rounding.rounds(1real / 4real, quarter));
    assert(rounding.unit * (1real / 4real) <= 1real / 1000000real) by (nonlinear_arith)
        requires
            rounding.unit <= 1real / 1000000real,
    ;
    assert(x <= rounding.worth(quarter));
}

/// The throttle follows the pedal between where it is and where the pedal stands.
proof fn lemma_throttle_follows_within_range<R: Real>(rounding: Rounding<R>, pedal: Pedal<R>)
    requires
        rounding.kept(),
        pedal_in_range(rounding, pedal),
    ensures
        rounding.is_finite(followed(pedal)),
        0real <= rounding.worth(followed(pedal)) <= 1real,
        pedal.target_throttle == R::fraction(0, 1) ==> rounding.worth(followed(pedal))
            <= rounding.worth(pedal.actual_throttle),
        pedal.target_throttle == R::fraction(1, 1) ==> rounding.worth(followed(pedal))
            >= rounding.worth(pedal.actual_throttle),
{
    let u = rounding.unit;
    let zero = R::fraction(0, 1);
    let one = R::fraction(1, 1);
    let part = R::fraction(15, 100);
    let actual = pedal.actual_throttle;
    let a = rounding.worth(actual);
    assert(rounding.in_range(0real / 1real));
    assert(rounding.in_range(1real / 1real));
    assert(rounding.in_range(15real / 100real));
    assert(rounding.rounds(15real / 100real, part));
    assert(rounding.is_finite(zero) && rounding.worth(zero) == 0real);
    assert(rounding.is_finite(one) && rounding.worth(one) == 1real);
    assert(u * (15real / 100real) <= 1real / 1000000real) by (nonlinear_arith)
        requires
            u <= 1real / 1000000real,
    ;
    let c = rounding.worth(part);
    assert(1real / 10real <= c <= 1real / 5real);
    let gap = pedal.target_throttle.spec_sub(actual);
    let s = rounding.worth(gap);
    let t = rounding.worth(pedal.target_throttle);
    assert(rounding.uncrossed(t - a, gap));
    let change = gap.spec_mul(part);
    if pedal.target_throttle == one && !(one == zero) {
        assert(0real <= s <= 1real);
        assert(0real <= s * c <= s && s * c <= s / 5real) by (nonlinear_arith)
            requires
                0real <= s,
                0real <= c <= 1real / 5real,
        ;
        assert(rounding.uncrossed(s * c, change));
        let m = rounding.worth(change);
        assert(0real <= m <= s);
        assert(a + m <= 1real) by {
            if a < 1real / 2real {
                lemma_small_change(rounding, gap, change, s * c);
            }
        }
        assert(rounding.uncrossed(a + m, actual.spec_add(change)));
        assert(rounding.is_finite(actual));
    } else {
        assert(s == -a);
        assert(s <= s * c <= 0real) by (nonlinear_arith)
            requires
                s <= 0real,
                0real <= c <= 1real / 5real,
        ;
        assert(rounding.uncrossed(s * c, change));
        let m = rounding.worth(change);
        assert(rounding.is_finite(gap));
        assert(s <= m <= 0real);
        assert(rounding.uncrossed(a + m, actual.spec_add(change)));
        assert(rounding.is_finite(actual));
    }
}

/// The throttle starts closed, which is in its range.
pub proof fn law_fresh_pedal_is_in_range<R: Real>(rounding: Rounding<R>)
    requires
        rounding.kept(),
    ensures
        pedal_in_range(
            rounding,
            Pedal { target_throttle: R::fraction(0, 1), actual_throttle: R::fraction(0, 1) },
        ),
{
    assert(rounding.in_range(0real / 1real));
}

/// No turn of the control loop takes the throttle out of its range: whatever keys are pressed, it
/// stays between closed and open.
pub proof fn law_throttle_stays_in_range<R: Real>(
    rounding: Rounding<R>,
    pedal: Pedal<R>,
    input: Input,
)
    requires
        rounding.kept(),
        pedal_in_range(rounding, pedal),
    ensures
        pedal_in_range(rounding, turned(pedal, input)),
{
    let pressed = Pedal {
        target_throttle: pedal_target(pedal.target_throttle, input),
        actual_throttle: pedal.actual_throttle,
    };
    lemma_throttle_follows_within_range(rounding, pressed);
}

} // verus!
