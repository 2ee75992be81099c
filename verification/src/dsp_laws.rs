//! What holds of the signal processing over whole signals, by the numbers that come out.

use vstd::prelude::*;

use crate::dsp::{
    DcBlocker, blocked, dot, heard_all, impulse, law_filter_remembers_the_latest_inputs,
    next_peak,
};
use crate::number::Real;
use crate::premises::{Rounding, Zeros, nil};

verus! {

/// What a filter of `taps` taps has heard before its first input.
pub open spec fn silence<R: Real>(taps: nat) -> Seq<R> {
    Seq::new(taps, |i: int| R::fraction(0, 1))
}

/// The output of a new filter with the response `ir` for the last of `inputs`.
pub open spec fn response<R: Real>(ir: Seq<R>, inputs: Seq<R>) -> R {
    dot(heard_all(silence(ir.len()), inputs), ir, ir.len() as int)
}

/// The sum of the `n` latest inputs, each weighted by the tap of its age, the newest first.
pub open spec fn convolution<R: Real>(ir: Seq<R>, inputs: Seq<R>, n: int) -> R
    decreases n,
{
    if n <= 0 {
        R::fraction(0, 1)
    } else {
        convolution(ir, inputs, n - 1) + inputs[inputs.len() - n] * ir[n - 1]
    }
}

/// The smaller of two counts.
pub open spec fn fewer(a: nat, b: nat) -> nat {
    if a < b {
        a
    } else {
        b
    }
}

proof fn lemma_sum_is_unsigned<R: Real>(zeros: Zeros<R>, ir: Seq<R>, inputs: Seq<R>, n: int)
    requires
        zeros.kept(),
    ensures
        zeros.is_unsigned(convolution(ir, inputs, n)),
    decreases n,
{
    if n > 0 {
        lemma_sum_is_unsigned(zeros, ir, inputs, n - 1);
    }
}

proof fn lemma_unheard_inputs_add_nothing<R: Real>(
    zeros: Zeros<R>,
    ir: Seq<R>,
    inputs: Seq<R>,
    n: int,
)
    requires
        zeros.kept(),
        ir.len() > 0,
        forall|i: int| 0 <= i < ir.len() ==> zeros.is_finite(#[trigger] ir[i]),
        0 <= n <= ir.len(),
    ensures
        dot(heard_all(silence(ir.len()), inputs), ir, n) == convolution(
            ir,
            inputs,
            fewer(inputs.len(), n as nat) as int,
        ),
    decreases n,
{
    let heard = heard_all(silence::<R>(ir.len()), inputs);
    if n > 0 {
        lemma_unheard_inputs_add_nothing(zeros, ir, inputs, n - 1);
        law_filter_remembers_the_latest_inputs(silence::<R>(ir.len()), inputs);
        if n > inputs.len() {
            lemma_sum_is_unsigned(zeros, ir, inputs, inputs.len() as int);
            assert(heard[n - 1] == R::fraction(0, 1));
            assert(zeros.is_finite(ir[n - 1]));
            assert(nil(heard[n - 1].spec_mul(ir[n - 1])));
        } else {
            assert(heard[n - 1] == inputs[inputs.len() - n]);
        }
    }
}

/// A pipe convolves causally: the output for the latest of the inputs is the sum of the inputs
/// heard so far, each weighted by the tap of its age, in the order of their age, as far as the
/// taps reach. Inputs older than the taps have no influence.
pub proof fn law_pipe_convolves_causally<R: Real>(zeros: Zeros<R>, ir: Seq<R>, inputs: Seq<R>)
    requires
        zeros.kept(),
        ir.len() > 0,
        forall|i: int| 0 <= i < ir.len() ==> zeros.is_finite(#[trigger] ir[i]),
    ensures
        response(ir, inputs) == convolution(ir, inputs, fewer(inputs.len(), ir.len()) as int),
{
    lemma_unheard_inputs_add_nothing(zeros, ir, inputs, ir.len() as int);
}

/// A unit impulse, followed by `k` samples of silence.
pub open spec fn unit_impulse<R: Real>(k: nat) -> Seq<R> {
    seq![R::fraction(1, 1)] + silence(k)
}

proof fn lemma_impulse_meets_one_tap<R: Real>(zeros: Zeros<R>, ir: Seq<R>, k: nat, n: int)
    requires
        zeros.kept(),
        forall|i: int|
            0 <= i < ir.len() ==> zeros.is_finite(#[trigger] ir[i]) && zeros.is_unsigned(ir[i]),
        0 <= n <= ir.len(),
        n <= k + 1,
    ensures
        convolution(ir, unit_impulse(k), n) == if n == k + 1 {
            ir[k as int]
        } else {
            R::fraction(0, 1)
        },
    decreases n,
{
    let inputs = unit_impulse::<R>(k);
    if n > 0 {
        lemma_impulse_meets_one_tap(zeros, ir, k, n - 1);
        let tap = ir[n - 1];
        assert(zeros.is_finite(tap) && zeros.is_unsigned(tap));
        if n == k + 1 {
            assert(inputs[inputs.len() - n] == R::fraction(1, 1));
            assert(R::fraction(1, 1).spec_mul(tap) == tap);
            assert(R::fraction(0, 1).spec_add(tap) == tap);
        } else {
            assert(inputs[inputs.len() - n] == R::fraction(0, 1));
            assert(nil(R::fraction(0, 1).spec_mul(tap)));
        }
    }
}

/// A pipe answers a unit impulse with its response: the impulse and the silence after it play
/// the taps back one by one, and then there is silence.
pub proof fn law_unit_impulse_plays_the_response_back<R: Real>(
    zeros: Zeros<R>,
    ir: Seq<R>,
    k: nat,
)
    requires
        zeros.kept(),
        ir.len() > 0,
        forall|i: int|
            0 <= i < ir.len() ==> zeros.is_finite(#[trigger] ir[i]) && zeros.is_unsigned(ir[i]),
    ensures
        response(ir, unit_impulse(k)) == if k < ir.len() {
            ir[k as int]
        } else {
            R::fraction(0, 1)
        },
{
    law_pipe_convolves_causally(zeros, ir, unit_impulse(k));
    lemma_impulse_meets_one_tap(zeros, ir, k, fewer(k + 1, ir.len()) as int);
}

/// No tap of a pipe is a zero with a minus sign, so that every pipe of finite taps plays its
/// response back.
pub proof fn law_taps_are_unsigned<R: Real>(
    zeros: Zeros<R>,
    sample_rate: R,
    resonance_freq: R,
    decay_speed: R,
    noise: Seq<R>,
    n: int,
)
    requires
        zeros.kept(),
    ensures
        zeros.is_unsigned(impulse(sample_rate, resonance_freq, decay_speed, noise, n)),
    decreases n,
{
    if n > 0 {
        law_taps_are_unsigned(zeros, sample_rate, resonance_freq, decay_speed, noise, n - 1);
    }
}

/// The state of a blocker that hears the input `x` for `n` samples.
pub open spec fn held_input<R: Real>(blocker: DcBlocker<R>, x: R, n: nat) -> DcBlocker<R>
    decreases n,
{
    if n == 0 {
        blocker
    } else {
        let before = held_input(blocker, x, (n - 1) as nat);
        DcBlocker { x_prev: x, y_prev: blocked(before, x) }
    }
}

/// What is left of `y` after `n` samples of fading.
pub open spec fn faded<R: Real>(y: R, n: nat) -> R
    decreases n,
{
    if n == 0 {
        y
    } else {
        R::fraction(995, 1000) * faded(y, (n - 1) as nat)
    }
}

/// A constant input fades: from its second sample on, each sample of the output is 0.995 times
/// the one before.
pub proof fn law_constant_input_fades<R: Real>(
    zeros: Zeros<R>,
    blocker: DcBlocker<R>,
    x: R,
    n: nat,
)
    requires
        zeros.kept(),
        zeros.is_finite(x),
        forall|m: nat|
            m <= n ==> zeros.is_unsigned(#[trigger] faded(blocked(blocker, x), m)),
    ensures
        held_input(blocker, x, n + 1).y_prev == faded(blocked(blocker, x), n),
    decreases n,
{
    reveal_with_fuel(held_input, 2);
    if n > 0 {
        law_constant_input_fades(zeros, blocker, x, (n - 1) as nat);
        let before = held_input(blocker, x, n);
        assert(before.x_prev == x);
        assert(zeros.is_unsigned(faded(blocked(blocker, x), n)));
        assert(x.spec_sub(x) == R::fraction(0, 1));
    }
}

proof fn lemma_constant_input_never_grows<R: Real>(rounding: Rounding<R>, x: R, y: R)
    requires
        rounding.kept(),
        rounding.is_finite(x),
        rounding.is_finite(y),
    ensures
        ({
            let next = blocked(DcBlocker { x_prev: x, y_prev: y }, x);
            &&& rounding.is_finite(next)
            &&& rounding.worth(next.magnitude()) <= rounding.worth(y.magnitude())
        }),
{
    let most = R::fraction(995, 1000);
    let zero = R::fraction(0, 1);
    let v = rounding.worth(y);
    let c = rounding.worth(most);
    let exact = 995real / 1000real;
    assert(rounding.in_range(exact));
    assert(rounding.rounds(exact, most));
    assert(rounding.in_range(0real / 1real));
    assert(rounding.rounds(0real / 1real, zero));
    assert(rounding.worth(zero) == 0real);
    assert(rounding.unit * exact <= 1real / 1000000real) by (nonlinear_arith)
        requires
            0real < rounding.unit <= 1real / 1000000real,
            exact == 995real / 1000real,
    ;
    assert(0real <= c <= 1real);
    assert(rounding.reaches(v));
    if v >= 0real {
        assert(0real <= c * v <= v) by (nonlinear_arith)
            requires
                0real <= c <= 1real,
                v >= 0real,
        ;
    } else {
        assert(v <= c * v <= 0real) by (nonlinear_arith)
            requires
                0real <= c <= 1real,
                v < 0real,
        ;
    }
    let left = most.spec_mul(y);
    assert(rounding.uncrossed(c * v, left));
    let change = x.spec_sub(x);
    assert(rounding.uncrossed(0real, change));
    assert(rounding.worth(change) == 0real);
    assert(rounding.reaches(rounding.worth(left)));
    assert(rounding.uncrossed(rounding.worth(left), change.spec_add(left)));
    assert(rounding.worth(change.spec_add(left)) == rounding.worth(left));
    assert(rounding.is_finite(change.spec_add(left).magnitude()));
    assert(rounding.is_finite(y.magnitude()));
}

/// Under a constant input the output never grows: from the second sample on, its magnitude is at
/// most that of the sample before.
pub proof fn law_constant_input_never_grows<R: Real>(
    rounding: Rounding<R>,
    blocker: DcBlocker<R>,
    x: R,
    n: nat,
)
    requires
        rounding.kept(),
        rounding.is_finite(x),
        rounding.is_finite(blocked(blocker, x)),
    ensures
        ({
            let earlier = held_input(blocker, x, n + 1).y_prev;
            let later = held_input(blocker, x, n + 2).y_prev;
            &&& rounding.is_finite(earlier)
            &&& rounding.is_finite(later)
            &&& rounding.worth(later.magnitude()) <= rounding.worth(earlier.magnitude())
        }),
    decreases n,
{
    reveal_with_fuel(held_input, 2);
    if n > 0 {
        law_constant_input_never_grows(rounding, blocker, x, (n - 1) as nat);
    }
    let before = held_input(blocker, x, n + 1);
    assert(before.x_prev == x);
    assert(before == (DcBlocker { x_prev: x, y_prev: before.y_prev }));
    lemma_constant_input_never_grows(rounding, x, before.y_prev);
}

/// The peak after a number of inputs.
pub open spec fn peak_after<R: Real>(peak: R, inputs: Seq<R>) -> R
    decreases inputs.len(),
{
    if inputs.len() == 0 {
        peak
    } else {
        next_peak(peak_after(peak, inputs.drop_last()), inputs.last())
    }
}

/// Whether a peak is at least one: a finite one or the infinite one.
pub open spec fn at_least_one<R: Real>(rounding: Rounding<R>, peak: R) -> bool {
    ||| rounding.is_infinite(peak)
    ||| rounding.is_finite(peak) && 1real <= rounding.worth(peak) <= rounding.top
}

/// What a peak fades to, if it does not rise.
pub open spec fn faded_peak<R: Real>(peak: R) -> R {
    peak * R::fraction(999, 1000) + R::fraction(1, 1) * R::fraction(1, 1000)
}

proof fn lemma_peak_fades_towards_one<R: Real>(rounding: Rounding<R>, peak: R)
    requires
        rounding.kept(),
        rounding.is_finite(peak),
        1real <= rounding.worth(peak) <= rounding.top,
    ensures
        rounding.is_finite(faded_peak(peak)),
        1real <= rounding.worth(faded_peak(peak)) <= rounding.worth(peak),
        9989real / 10000real * rounding.worth(peak) <= rounding.worth(faded_peak(peak)),
{
    let u = rounding.unit;
    let one = R::fraction(1, 1);
    let most = R::fraction(999, 1000);
    let rest = R::fraction(1, 1000);
    let p = rounding.worth(peak);
    let c = rounding.worth(most);
    let thousandth = 1real / 1000real;
    assert(rounding.in_range(999real / 1000real));
    assert(rounding.in_range(thousandth));
    assert(rounding.in_range(1real / 1real));
    assert(rounding.is_finite(most) && rounding.is_finite(rest) && rounding.is_finite(one));
    assert(c <= p * c <= p * (999real / 1000real)) by (nonlinear_arith)
        requires
            1real <= p,
            0real < c <= 999real / 1000real,
    ;
    let kept_part = peak.spec_mul(most);
    let a = rounding.worth(kept_part);
    assert(rounding.in_range(p * c));
    assert(rounding.rounds(p * c, kept_part));
    let added = one.spec_mul(rest);
    let d = rounding.worth(added);
    let r = rounding.worth(rest);
    assert(rounding.worth(one) * r == r);
    assert(u * thousandth <= thousandth / 1000000real) by (nonlinear_arith)
        requires
            0real < u <= 1real / 1000000real,
            thousandth == 1real / 1000real,
    ;
    assert(rounding.in_range(r));
    assert(rounding.rounds(r, added));
    assert(u * r <= u * thousandth + u * (u * thousandth)) by (nonlinear_arith)
        requires
            0real < u,
            r - thousandth <= u * thousandth,
    ;
    let x = a + d;
    assert(u * (u * thousandth) <= u * (thousandth / 1000000real)) by (nonlinear_arith)
        requires
            0real < u,
            u * thousandth <= thousandth / 1000000real,
    ;
    assert(d - thousandth <= u * (3real / 1000real));
    assert(thousandth - d <= u * (3real / 1000real));
    assert(c <= a);
    assert(1real - u / 2real < x);
    if p * c <= 1real {
        assert(x < p + u);
        assert(x <= rounding.top);
    } else {
        assert(u * (p * c) <= (p * c) / 1000000real) by (nonlinear_arith)
            requires
                0real < u <= 1real / 1000000real,
                p * c > 1real,
        ;
        assert(x < p);
    }
    assert(rounding.rounds(x, kept_part.spec_add(added)));
    let y = rounding.worth(kept_part.spec_add(added));
    assert(9989real / 10000real * p <= y) by (nonlinear_arith)
        requires
            0real < u <= 1real / 1000000real,
            1real <= p,
            999real / 1000real - u / 8real <= c,
            p * c - a <= u * (p * c),
            a <= x,
            x - y <= u * x,
    {
        assert(p * c >= p * (99899real / 100000real));
        assert(u * (p * c) <= (p * c) / 1000000real);
        assert(x >= 0real);
        assert(u * x <= x / 1000000real);
    }
}

/// The peak never falls below one, and it rises only to a louder input: whatever is heard, a
/// step either takes over the magnitude of a louder input, or it does not raise the peak.
pub proof fn law_peak_rises_only_to_a_louder_input<R: Real>(rounding: Rounding<R>, peak: R, x: R)
    requires
        rounding.kept(),
        at_least_one(rounding, peak),
    ensures
        at_least_one(rounding, next_peak(peak, x)),
        ({
            let next = next_peak(peak, x);
            ||| peak < x.magnitude() && next == x.magnitude()
            ||| rounding.is_infinite(peak)
            ||| rounding.is_finite(next) && rounding.worth(next) <= rounding.worth(peak)
        }),
{
    if peak.spec_lt(x.magnitude()) {
        assert(rounding.is_graded(x));
    } else if rounding.is_infinite(peak) {
        let one = R::fraction(1, 1);
        let most = R::fraction(999, 1000);
        let rest = R::fraction(1, 1000);
        assert(rounding.in_range(1real / 1real));
        assert(rounding.in_range(999real / 1000real));
        assert(rounding.in_range(1real / 1000real));
        let r = rounding.worth(rest);
        assert(rounding.unit * (1real / 1000real) <= 1real / 1000000real) by (nonlinear_arith)
            requires
                rounding.unit <= 1real / 1000000real,
        ;
        assert(rounding.worth(one) == 1real);
        assert(rounding.worth(one) * r == r) by (nonlinear_arith)
            requires
                rounding.worth(one) == 1real,
        ;
        assert(rounding.in_range(r));
        assert(rounding.is_finite(one.spec_mul(rest)));
        assert(rounding.is_infinite(peak.spec_mul(most)));
    } else {
        lemma_peak_fades_towards_one(rounding, peak);
    }
}

/// Whether a peak is a finite number and at least one.
pub open spec fn settled<R: Real>(rounding: Rounding<R>, peak: R) -> bool {
    rounding.is_finite(peak) && 1real <= rounding.worth(peak)
}

/// A finite input leaves the peak settled, and divided by it the input exceeds one by hardly more
/// than a thousandth: what the release may lose in one step.
pub proof fn law_gain_brings_the_input_to_scale<R: Real>(rounding: Rounding<R>, peak: R, x: R)
    requires
        rounding.kept(),
        settled(rounding, peak),
        rounding.is_finite(x),
    ensures
        settled(rounding, next_peak(peak, x)),
        rounding.is_finite(x / next_peak(peak, x)),
        -(10012real / 10000real) <= rounding.worth(x / next_peak(peak, x)) <= 10012real
            / 10000real,
{
    let u = rounding.unit;
    let next = next_peak(peak, x);
    let d = rounding.worth(x);
    let p = rounding.worth(peak);
    let bound = R::fraction(100115, 100000);
    let exact = 100115real / 100000real;
    let b = rounding.worth(bound);
    assert(rounding.in_range(exact));
    assert(rounding.rounds(exact, bound));
    assert(u * exact <= 2real / 1000000real) by (nonlinear_arith)
        requires
            0real < u <= 1real / 1000000real,
            exact == 100115real / 100000real,
    ;
    assert(rounding.reaches(p));
    assert(rounding.is_finite(x.magnitude()));
    if !peak.spec_lt(x.magnitude()) {
        lemma_peak_fades_towards_one(rounding, peak);
        assert(next == faded_peak(peak));
    }
    let t = rounding.worth(next);
    assert(1real <= t);
    assert(-t * (10011real / 10000real) - t / 100000real <= d <= t * (10011real / 10000real) + t
        / 100000real) by {
        if peak.spec_lt(x.magnitude()) {
            assert(d == t || d == -t);
        } else {
            assert(-p <= d <= p);
            assert(9989real / 10000real * p <= t);
        }
    }
    let q = d / t;
    assert(-b <= q <= b) by (nonlinear_arith)
        requires
            q == d / t,
            1real <= t,
            -t * (10011real / 10000real) - t / 100000real <= d,
            d <= t * (10011real / 10000real) + t / 100000real,
            b >= 100115real / 100000real - 2real / 1000000real,
    {
        assert(q * t == d);
    }
    assert(rounding.is_finite(bound.spec_neg()));
    assert(rounding.worth(bound.spec_neg()) == -b);
    assert(rounding.reaches(q));
    assert(rounding.uncrossed(q, x.spec_euclidean_or_real_div(next)));
}

/// From the start, whatever is heard, the peak is never below one.
pub proof fn law_peak_is_never_below_one<R: Real>(rounding: Rounding<R>, inputs: Seq<R>)
    requires
        rounding.kept(),
    ensures
        at_least_one(rounding, peak_after(R::fraction(1, 1), inputs)),
    decreases inputs.len(),
{
    if inputs.len() == 0 {
        assert(rounding.in_range(1real / 1real));
    } else {
        law_peak_is_never_below_one(rounding, inputs.drop_last());
        law_peak_rises_only_to_a_louder_input(
            rounding,
            peak_after(R::fraction(1, 1), inputs.drop_last()),
            inputs.last(),
        );
    }
}

} // verus!
