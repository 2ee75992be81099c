//! Acoustic signal processing: the pipes, the header delays and the output stage.

use vstd::prelude::*;

use crate::number::{deterministic, Real};

verus! {

/// `n` copies of `x`.
fn filled<R: Copy>(x: R, n: usize) -> (v: Vec<R>)
    ensures
        v@ == Seq::new(n as nat, |i: int| x),
{
    let mut v: Vec<R> = Vec::new();
    let mut i: usize = 0;
    while i < n
        invariant
            i <= n,
            v@ == Seq::new(i as nat, |j: int| x),
        decreases n - i,
    {
        v.push(x);
        i = i + 1;
    }
    v
}

/// The slot after `ptr` in a ring of `len` slots.
proof fn lemma_next_slot(ptr: int, len: int)
    requires
        0 <= ptr < len,
    ensures
        (ptr + 1) % len == if ptr + 1 < len {
            ptr + 1
        } else {
            0
        },
{
    if ptr + 1 < len {
        vstd::arithmetic::div_mod::lemma_small_mod((ptr + 1) as nat, len as nat);
    } else {
        vstd::arithmetic::div_mod::lemma_mod_self_0(len);
    }
}

/// What a [`ConvolutionFilter`] is: its impulse response, and the inputs that it still
/// remembers, the latest first.
#[verifier::ext_equal]
pub struct FilterView<R> {
    pub ir: Seq<R>,
    pub heard: Seq<R>,
}

/// The state of the low-pass behind the first `n` taps of an impulse response: a mixture of
/// noise and a resonance, both dying away.
pub open spec fn impulse<R: Real>(
    sample_rate: R,
    resonance_freq: R,
    decay_speed: R,
    noise: Seq<R>,
    n: int,
) -> R
    decreases n,
{
    if n <= 0 {
        R::fraction(0, 1)
    } else {
        let i = R::fraction((n - 1) as u64, 1);
        let lp = impulse(sample_rate, resonance_freq, decay_speed, noise, n - 1);
        let envelope = (-i / decay_speed).exponential();
        let resonance = (i * R::fraction(2, 1) * R::circle() * resonance_freq
            / sample_rate).cosine();
        let half = R::fraction(1, 2);
        lp + R::fraction(3, 10) * ((noise[n - 1] * envelope * half + resonance * envelope * half)
            - lp)
    }
}

/// The sum of the first `n` products of two signals, taken in order.
pub open spec fn dot<R: Real>(a: Seq<R>, b: Seq<R>, n: int) -> R
    decreases n,
{
    if n <= 0 {
        R::fraction(0, 1)
    } else {
        dot(a, b, n - 1) + a[n - 1] * b[n - 1]
    }
}

/// The inputs that are remembered once `input` has been heard.
pub open spec fn heard_one<R>(heard: Seq<R>, input: R) -> Seq<R> {
    seq![input] + heard.drop_last()
}

/// The inputs that are remembered once all of `inputs` have been heard, in order.
pub open spec fn heard_all<R>(heard: Seq<R>, inputs: Seq<R>) -> Seq<R>
    decreases inputs.len(),
{
    if inputs.len() == 0 {
        heard
    } else {
        heard_one(heard_all(heard, inputs.drop_last()), inputs.last())
    }
}

/// A pipe that answers every input with its impulse response.
pub struct ConvolutionFilter<R> {
    pub ir: Vec<R>,
    pub history: Vec<R>,
    pub ptr: usize,
}

impl<R> ConvolutionFilter<R> {
    /// Whether the history is a ring as long as the response, with `ptr` on its oldest entry.
    pub open spec fn well_formed(&self) -> bool {
        &&& self.history@.len() == self.ir@.len()
        &&& self.ptr < self.ir@.len()
    }

    /// Where the ring holds the input that came `age` inputs before the latest one.
    pub open spec fn slot(&self, age: int) -> int {
        if age < self.ptr {
            self.ptr - 1 - age
        } else {
            self.ptr - 1 - age + self.history@.len()
        }
    }
}

impl<R> View for ConvolutionFilter<R> {
    type V = FilterView<R>;

    open spec fn view(&self) -> FilterView<R> {
        FilterView {
            ir: self.ir@,
            heard: Seq::new(self.history@.len(), |age: int| self.history@[self.slot(age)]),
        }
    }
}

impl<R: Real> ConvolutionFilter<R> {
    /// A pipe with one tap for each number in `noise`, which are to be drawn between -1 and 1.
    /// It has heard silence.
    pub fn new(sample_rate: R, resonance_freq: R, decay_speed: R, noise: &Vec<R>) -> (filter: Self)
        ensures
            noise@.len() > 0 ==> filter.well_formed(),
            filter.ptr == 0,
            filter.ir@.len() == noise@.len(),
            filter.history@.len() == noise@.len(),
            deterministic::<R>() ==> forall|i: int|
                0 <= i < noise@.len() ==> filter.history@[i] == R::fraction(0, 1),
            filter@.ir.len() == noise@.len(),
            filter@.heard.len() == noise@.len(),
            deterministic::<R>() ==> filter@ == (FilterView {
                ir: Seq::new(
                    noise@.len(),
                    |i: int|
                        impulse(sample_rate, resonance_freq, decay_speed, noise@, i + 1),
                ),
                heard: Seq::new(noise@.len(), |i: int| R::fraction(0, 1)),
            }),
    {
        let length: usize = noise.len();
        let mut ir: Vec<R> = Vec::new();
        let mut lp = R::ratio(0, 1);
        let mut i: usize = 0;
        while i < length
            invariant
                i <= length,
                length == noise@.len(),
                ir@.len() == i,
                deterministic::<R>() ==> lp == impulse(
                    sample_rate,
                    resonance_freq,
                    decay_speed,
                    noise@,
                    i as int,
                ),
                deterministic::<R>() ==> ir@ == Seq::new(
                    i as nat,
                    |j: int|
                        impulse(sample_rate, resonance_freq, decay_speed, noise@, j + 1),
                ),
            decreases length - i,
        {
            let age = R::ratio(i as u64, 1);
            let envelope = age.neg().div(decay_speed).exp();
            let resonance = age.mul(R::ratio(2, 1)).mul(R::pi()).mul(resonance_freq).div(
                sample_rate,
            ).cos();
            let half = R::ratio(1, 2);
            let mixed = noise[i].mul(envelope).mul(half).add(resonance.mul(envelope).mul(half));
            lp = lp.add(R::ratio(3, 10).mul(mixed.sub(lp)));
            ir.push(lp);
            i = i + 1;
        }
        ConvolutionFilter { ir, history: filled(R::ratio(0, 1), length), ptr: 0 }
    }

    /// Hears one input and returns the sum of what the remembered inputs, each weighted by the
    /// tap of its age, still contribute.
    pub fn process(&mut self, input: R) -> (output: R)
        requires
            old(self).well_formed(),
        ensures
            final(self).well_formed(),
            final(self).ir == old(self).ir,
            final(self).history@ == old(self).history@.update(old(self).ptr as int, input),
            final(self).ptr == (old(self).ptr + 1) % (old(self).ir@.len() as int),
            final(self)@ == (FilterView {
                ir: old(self)@.ir,
                heard: heard_one(old(self)@.heard, input),
            }),
            deterministic::<R>() ==> output == dot(
                heard_one(old(self)@.heard, input),
                old(self)@.ir,
                old(self)@.ir.len() as int,
            ),
    {
        let ghost heard = heard_one(self@.heard, input);
        let ptr: usize = self.ptr;
        let len: usize = self.ir.len();
        self.history[ptr] = input;
        let mut sum = R::ratio(0, 1);
        let mut i: usize = 0;
        while i < len
            invariant
                i <= len,
                len == self.ir@.len(),
                len == self.history@.len(),
                ptr < len,
                ptr == old(self).ptr,
                self.ir == old(self).ir,
                self.history@ == old(self).history@.update(ptr as int, input),
                heard.len() == len,
                forall|j: int|
                    0 <= j < len ==> heard[j] == self.history@[if j <= ptr {
                        ptr - j
                    } else {
                        ptr - j + len
                    }],
                deterministic::<R>() ==> sum == dot(heard, self.ir@, i as int),
            decreases len - i,
        {
            let slot: usize = if i <= ptr {
                ptr - i
            } else {
                ptr + (len - i)
            };
            assert(heard[i as int] == self.history@[slot as int]);
            sum = sum.add(self.history[slot].mul(self.ir[i]));
            i = i + 1;
        }
        self.ptr = if ptr + 1 < len {
            ptr + 1
        } else {
            0
        };
        proof {
            lemma_next_slot(ptr as int, len as int);
        }
        assert(self@.heard =~= heard);
        sum
    }
}

/// A delay line between an exhaust valve and the pipe.
pub struct HeaderDelay<R> {
    pub buffer: Vec<R>,
    pub ptr: usize,
}

impl<R> HeaderDelay<R> {
    /// Whether the buffer is a ring that holds something, with `ptr` on its oldest entry.
    pub open spec fn well_formed(&self) -> bool {
        self.ptr < self.buffer@.len()
    }
}

impl<R> View for HeaderDelay<R> {
    type V = Seq<R>;

    /// The samples under way, the next to come out first.
    open spec fn view(&self) -> Seq<R> {
        Seq::new(
            self.buffer@.len(),
            |i: int|
                self.buffer@[if self.ptr + i < self.buffer@.len() {
                    self.ptr + i
                } else {
                    self.ptr + i - self.buffer@.len()
                }],
        )
    }
}

impl<R: Real> HeaderDelay<R> {
    /// A silent line that delays by `delay_samples`, but at least by one sample.
    pub fn new(delay_samples: usize) -> (line: Self)
        ensures
            line.well_formed(),
            line.ptr == 0,
            line.buffer@.len() == line@.len(),
            deterministic::<R>() ==> forall|i: int|
                0 <= i < line.buffer@.len() ==> line.buffer@[i] == R::fraction(0, 1),
            line@.len() == if delay_samples < 1 {
                1
            } else {
                delay_samples as nat
            },
            deterministic::<R>() ==> forall|i: int|
                0 <= i < line@.len() ==> line@[i] == R::fraction(0, 1),
    {
        let length: usize = if delay_samples < 1 {
            1
        } else {
            delay_samples
        };
        HeaderDelay { buffer: filled(R::ratio(0, 1), length), ptr: 0 }
    }

    /// Takes one sample in and lets the oldest one out.
    pub fn process(&mut self, input: R) -> (output: R)
        requires
            old(self).well_formed(),
        ensures
            final(self).well_formed(),
            final(self).buffer@ == old(self).buffer@.update(old(self).ptr as int, input),
            final(self).ptr == (old(self).ptr + 1) % (old(self).buffer@.len() as int),
            final(self)@ == old(self)@.drop_first().push(input),
            output == old(self)@.first(),
            output == old(self).buffer@[old(self).ptr as int],
    {
        let len: usize = self.buffer.len();
        let ptr: usize = self.ptr;
        let output = self.buffer[ptr];
        self.buffer[ptr] = input;
        self.ptr = if ptr + 1 < len {
            ptr + 1
        } else {
            0
        };
        proof {
            lemma_next_slot(ptr as int, len as int);
        }
        assert(self@ =~= old(self)@.drop_first().push(input));
        output
    }
}

/// Levels the signal by its running peak.
pub struct AutoGain<R> {
    pub peak: R,
}

/// The peak after `input`: it rises at once to a louder input and else falls slowly towards one.
pub open spec fn next_peak<R: Real>(peak: R, input: R) -> R {
    if peak < input.magnitude() {
        input.magnitude()
    } else {
        peak * R::fraction(999, 1000) + R::fraction(1, 1) * R::fraction(1, 1000)
    }
}

impl<R: Real> AutoGain<R> {
    pub fn new() -> (gain: Self)
        ensures
            deterministic::<R>() ==> gain.peak == R::fraction(1, 1),
    {
        AutoGain { peak: R::ratio(1, 1) }
    }

    /// Follows the peak and returns the input as a part of it.
    pub fn process(&mut self, input: R) -> (output: R)
        ensures
            deterministic::<R>() ==> final(self).peak == next_peak(old(self).peak, input),
            deterministic::<R>() ==> output == input / next_peak(old(self).peak, input),
    {
        let level = input.abs();
        if self.peak.lt(level) {
            self.peak = level;
        } else {
            self.peak = self.peak.mul(R::ratio(999, 1000)).add(
                R::ratio(1, 1).mul(R::ratio(1, 1000)),
            );
        }
        input.div(self.peak)
    }
}

/// Takes the constant part out of a signal.
pub struct DcBlocker<R> {
    pub x_prev: R,
    pub y_prev: R,
}

/// The output of a [`DcBlocker`] for the input `x`.
pub open spec fn blocked<R: Real>(blocker: DcBlocker<R>, x: R) -> R {
    x - blocker.x_prev + R::fraction(995, 1000) * blocker.y_prev
}

impl<R: Real> DcBlocker<R> {
    pub fn new() -> (blocker: Self)
        ensures
            deterministic::<R>() ==> blocker == (DcBlocker {
                x_prev: R::fraction(0, 1),
                y_prev: R::fraction(0, 1),
            }),
    {
        DcBlocker { x_prev: R::ratio(0, 1), y_prev: R::ratio(0, 1) }
    }

    /// Passes the change of the input on, on top of the slowly fading last output.
    pub fn process(&mut self, x: R) -> (y: R)
        ensures
            *final(self) == (DcBlocker { x_prev: x, y_prev: y }),
            deterministic::<R>() ==> y == blocked(*old(self), x),
    {
        let y = x.sub(self.x_prev).add(R::ratio(995, 1000).mul(self.y_prev));
        self.x_prev = x;
        self.y_prev = y;
        y
    }
}

/// What comes out of a delay line while `inputs` go in, one by one.
pub open spec fn delayed<R>(pending: Seq<R>, inputs: Seq<R>) -> Seq<R>
    decreases inputs.len(),
{
    if inputs.len() == 0 {
        Seq::empty()
    } else {
        seq![pending.first()] + delayed(
            pending.drop_first().push(inputs.first()),
            inputs.drop_first(),
        )
    }
}

/// A delay line lets out every sample in the order in which it came in, each exactly as many
/// samples later as the line holds: what comes out is what was under way, followed by the
/// inputs.
pub proof fn law_delay_line_shifts_the_signal<R>(pending: Seq<R>, inputs: Seq<R>)
    requires
        pending.len() > 0,
    ensures
        delayed(pending, inputs) == (pending + inputs).take(inputs.len() as int),
    decreases inputs.len(),
{
    if inputs.len() > 0 {
        let next = pending.drop_first().push(inputs.first());
        law_delay_line_shifts_the_signal(next, inputs.drop_first());
        assert(next + inputs.drop_first() =~= (pending + inputs).drop_first());
    }
    assert(delayed(pending, inputs) =~= (pending + inputs).take(inputs.len() as int));
}

/// After any number of inputs a filter remembers the latest of them, the newest first, and
/// behind them what it remembered before, as far as there is room.
pub proof fn law_filter_remembers_the_latest_inputs<R>(heard: Seq<R>, inputs: Seq<R>)
    requires
        heard.len() > 0,
    ensures
        heard_all(heard, inputs).len() == heard.len(),
        forall|age: int|
            0 <= age < heard.len() ==> heard_all(heard, inputs)[age] == if age < inputs.len() {
                inputs[inputs.len() - 1 - age]
            } else {
                heard[age - inputs.len()]
            },
    decreases inputs.len(),
{
    if inputs.len() > 0 {
        law_filter_remembers_the_latest_inputs(heard, inputs.drop_last());
    }
}

/// What a filter heard before its last as many inputs as it has taps has no bearing on its
/// output: two filters that have since heard the same answer alike, whatever came before.
pub proof fn law_filter_forgets_what_is_older_than_its_taps<R: Real>(
    ir: Seq<R>,
    heard1: Seq<R>,
    heard2: Seq<R>,
    inputs: Seq<R>,
)
    requires
        ir.len() > 0,
        heard1.len() == ir.len(),
        heard2.len() == ir.len(),
        inputs.len() >= ir.len(),
    ensures
        heard_all(heard1, inputs) == heard_all(heard2, inputs),
        dot(heard_all(heard1, inputs), ir, ir.len() as int) == dot(
            heard_all(heard2, inputs),
            ir,
            ir.len() as int,
        ),
{
    law_filter_remembers_the_latest_inputs(heard1, inputs);
    law_filter_remembers_the_latest_inputs(heard2, inputs);
    assert(heard_all(heard1, inputs) =~= heard_all(heard2, inputs));
}

} // verus!
