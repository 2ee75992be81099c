//! What the controls set and what the panel shows, in exact arithmetic.

use vstd::prelude::*;

use crate::controls::{
    Input, Key, Pedal, chosen_cylinders, chosen_displacement, followed, pedal_target, quits,
};
use crate::display::{
    filled_cells, gauge, row, speed_gauge, throttle_gauge,
};
use crate::exact::Exact;
use crate::exact_sound_laws::holds;
use crate::number::Real;
use crate::telemetry::{MAX_CYLINDERS, SharedView};

verus! {

/// Right makes the displacement larger by a tenth, up to ten; left takes it back, down to one
/// tenth; nothing else changes it.
pub proof fn law_keys_change_the_displacement<R: Real>(exact: Exact<R>, word: u64, input: Input)
    requires
        exact.kept(),
    ensures
        ({
            let d = exact.worth(R::decoded(word));
            let chosen = chosen_displacement::<R>(word, input);
            match input {
                Input::Pressed { key: Key::Right, .. } => holds(
                    exact,
                    chosen,
                    if d * (11real / 10real) < 10real {
                        d * (11real / 10real)
                    } else {
                        10real
                    },
                ),
                Input::Pressed { key: Key::Left, .. } => holds(
                    exact,
                    chosen,
                    if d / (11real / 10real) > 1real / 10real {
                        d / (11real / 10real)
                    } else {
                        1real / 10real
                    },
                ),
                _ => chosen == word,
            }
        }),
{
    let d = R::decoded(word);
    assert(10real / 1real == 10real);
    let grown = d.spec_mul(R::fraction(11, 10)).lesser(R::fraction(10, 1));
    let shrunk = d.spec_euclidean_or_real_div(R::fraction(11, 10)).greater(R::fraction(1, 10));
    assert(holds(exact, grown.word(), exact.worth(grown)));
    assert(holds(exact, shrunk.word(), exact.worth(shrunk)));
}

/// Up adds a cylinder and down takes one away, as far as there can be more or fewer; nothing else
/// changes their number.
pub proof fn law_keys_change_the_cylinders(cylinders: usize, input: Input)
    requires
        1 <= cylinders <= MAX_CYLINDERS,
    ensures
        chosen_cylinders(cylinders, input) as int == match input {
            Input::Pressed { key: Key::Up, .. } => if cylinders == 16 {
                16
            } else {
                cylinders + 1
            },
            Input::Pressed { key: Key::Down, .. } => if cylinders == 1 {
                1
            } else {
                cylinders - 1
            },
            _ => cylinders as int,
        },
{
}

/// The pedal goes down with `w`, in either case, comes up when nothing happens, and else stays
/// where it is.
pub proof fn law_pedal_obeys_its_key<R: Real>(exact: Exact<R>, target: R, input: Input)
    requires
        exact.kept(),
    ensures
        ({
            let moved = exact.worth(pedal_target(target, input));
            match input {
                Input::Pressed { key: Key::Char(c), .. } => if c == 'w' || c == 'W' {
                    moved == 1real
                } else {
                    moved == exact.worth(target)
                },
                Input::Idle => moved == 0real,
                _ => moved == exact.worth(target),
            }
        }),
{
    assert(1real / 1real == 1real);
    assert(0real / 1real == 0real);
}

/// The program ends with `q`, with escape, and with `c` while control is held, and with nothing
/// else.
pub proof fn law_three_keys_quit(input: Input)
    ensures
        quits(input) == match input {
            Input::Pressed { key: Key::Char(c), control } => c == 'q' || c == 'c' && control,
            Input::Pressed { key: Key::Esc, .. } => true,
            _ => false,
        },
{
}

/// The throttle closes in on the pedal: each turn of the control loop leaves 85 hundredths of the
/// gap between them.
pub proof fn law_throttle_closes_in_on_the_pedal<R: Real>(exact: Exact<R>, pedal: Pedal<R>)
    requires
        exact.kept(),
    ensures
        exact.worth(followed(pedal)) - exact.worth(pedal.target_throttle) == 85real / 100real * (
        exact.worth(pedal.actual_throttle) - exact.worth(pedal.target_throttle)),
{
    let a = exact.worth(pedal.actual_throttle);
    let gap = exact.worth(pedal.target_throttle) - a;
    let part = exact.worth(R::fraction(15, 100));
    assert(part == 15real / 100real);
    assert(exact.worth(followed(pedal)) == a + gap * part);
    assert(gap * part == gap * 15real / 100real) by (nonlinear_arith)
        requires
            part == 15real / 100real,
    ;
}

/// Whether cell `i` of a gauge is filled.
pub open spec fn is_filled(text: Seq<char>, i: int) -> bool {
    text[i] == '█'
}

proof fn lemma_cells_tell_the_reading<R: Real>(exact: Exact<R>, reading: R, full: R, i: int)
    requires
        exact.kept(),
        0 <= i < 40,
        exact.worth(full) == 8000real || exact.worth(full) == 1real,
    ensures
        ({
            let text = gauge(filled_cells(reading, full));
            &&& text.len() == 40
            &&& is_filled(text, i) == ((i + 1) as real * exact.worth(full) <= 40real * exact.worth(
                reading,
            ))
            &&& !is_filled(text, i) ==> text[i] == '-'
        }),
{
    assert(40real / 1real == 40real);
    assert(0real / 1real == 0real);
    let v = exact.worth(reading);
    let part = reading.spec_euclidean_or_real_div(full).spec_mul(R::fraction(40, 1));
    let held = part.held(R::fraction(0, 1), R::fraction(40, 1));
    let n = held.whole();
    let z = exact.worth(held);
    assert(filled_cells(reading, full) == n);
    assert(n as real <= z < n as real + 1real);
    assert(n <= 40);
    let k = (i + 1) as real;
    assert(exact.worth(part) == v / exact.worth(full) * 40real);
    if exact.worth(full) == 8000real {
        assert(exact.worth(part) == v / 8000real * 40real);
        assert((k <= z) == (k * 8000real <= 40real * v));
        assert(k * exact.worth(full) == k * 8000real);
    } else {
        assert(exact.worth(part) == v / 1real * 40real);
        assert((k <= z) == (k * 1real <= 40real * v));
        assert(k * exact.worth(full) == k * 1real);
    }
    assert((i < n) == (k <= z));
}

/// The speed gauge fills one of its forty cells for every 200 turns per minute, and above 7950 it
/// tells that the limiter is engaged.
pub proof fn law_speed_gauge_tells_the_speed<R: Real>(exact: Exact<R>, rpm: R, i: int)
    requires
        exact.kept(),
        0 <= i < 40,
    ensures
        exact.worth(rpm) > 7950real ==> speed_gauge(rpm)
            == "|||||||||||||||| LIMITER |||||||||||||||"@,
        exact.worth(rpm) <= 7950real ==> {
            &&& speed_gauge(rpm).len() == 40
            &&& is_filled(speed_gauge(rpm), i) == ((i + 1) as real * 200real <= exact.worth(rpm))
            &&& !is_filled(speed_gauge(rpm), i) ==> speed_gauge(rpm)[i] == '-'
        },
{
    assert(7950real / 1real == 7950real);
    assert(8000real / 1real == 8000real);
    lemma_cells_tell_the_reading(exact, rpm, R::fraction(8000, 1), i);
}

/// The throttle gauge fills one of its forty cells for every fortieth that the throttle is open.
pub proof fn law_throttle_gauge_tells_the_throttle<R: Real>(exact: Exact<R>, throttle: R, i: int)
    requires
        exact.kept(),
        0 <= i < 40,
    ensures
        throttle_gauge(throttle).len() == 40,
        is_filled(throttle_gauge(throttle), i) == ((i + 1) as real <= 40real * exact.worth(
            throttle,
        )),
        !is_filled(throttle_gauge(throttle), i) ==> throttle_gauge(throttle)[i] == '-',
{
    assert(1real / 1real == 1real);
    lemma_cells_tell_the_reading(exact, throttle, R::fraction(1, 1), i);
}

/// The line of a cylinder tells its number, counted from one, its pressure in kilopascals, and
/// its own flows.
pub proof fn law_line_tells_of_its_cylinder<R: Real>(exact: Exact<R>, shared: SharedView, i: int)
    requires
        exact.kept(),
        0 <= i < MAX_CYLINDERS,
    ensures
        ({
            let line = row::<R>(shared, i);
            &&& line.number == i + 1
            &&& exact.worth(line.pressure_kpa) * 1000real == exact.worth(
                R::decoded(shared.pressures[i]),
            )
            &&& line.intake_flow == R::decoded(shared.intake_flows[i])
            &&& line.exhaust_flow == R::decoded(shared.exhaust_flows[i])
        }),
{
    assert(1000real / 1real == 1000real);
}

/// A gauge has its filled cells in front and at least forty cells in all.
pub proof fn law_gauge_is_filled_from_the_front(filled: usize, i: int)
    requires
        0 <= i < gauge(filled).len(),
    ensures
        gauge(filled).len() == if filled > 40 {
            filled as int
        } else {
            40
        },
        gauge(filled)[i] == if i < filled {
            '█'
        } else {
            '-'
        },
{
}

} // verus!
