//! The controls: what the keys do, and how the throttle follows the pedal.

use vstd::prelude::*;

use crate::number::{deterministic, Real};
use crate::telemetry::{MAX_CYLINDERS, SharedEngineState, SharedView};

verus! {

/// A key of the keyboard.
#[derive(Clone, Copy, Debug, PartialEq, Eq)]
pub enum Key {
    Char(char),
    Up,
    Down,
    Left,
    Right,
    Esc,
    Other,
}

/// What the terminal reports in one turn of the control loop.
#[derive(Clone, Copy, Debug, PartialEq, Eq)]
pub enum Input {
    /// A key was pressed, with the control key held down or not.
    Pressed { key: Key, control: bool },
    /// Something else happened.
    Other,
    /// Nothing happened.
    Idle,
}

/// The pedal: how far it is pressed, and how far the throttle has followed.
pub struct Pedal<R> {
    pub target_throttle: R,
    pub actual_throttle: R,
}

/// Whether an input ends the program.
pub open spec fn quits(input: Input) -> bool {
    match input {
        Input::Pressed { key, control } => {
            ||| key == Key::Char('q')
            ||| key == Key::Esc
            ||| key == Key::Char('c') && control
        },
        _ => false,
    }
}

/// Where the pedal stands after an input: the key `w` presses it down, in either case, and it is
/// released when nothing happens.
pub open spec fn pedal_target<R: Real>(target: R, input: Input) -> R {
    match input {
        Input::Pressed { key, control } => if key == Key::Char('w') || key == Key::Char('W') {
            R::fraction(1, 1)
        } else {
            target
        },
        Input::Other => target,
        Input::Idle => R::fraction(0, 1),
    }
}

/// The cylinder count after an input: up and down change it by one, between one and the largest
/// count.
pub open spec fn chosen_cylinders(cylinders: usize, input: Input) -> usize {
    match input {
        Input::Pressed { key: Key::Up, .. } => if cylinders < MAX_CYLINDERS {
            (cylinders + 1) as usize
        } else {
            cylinders
        },
        Input::Pressed { key: Key::Down, .. } => if cylinders > 1 {
            (cylinders - 1) as usize
        } else {
            cylinders
        },
        _ => cylinders,
    }
}

/// The displacement after an input: right and left change it by a tenth, up to ten and down to
/// one tenth.
pub open spec fn chosen_displacement<R: Real>(displacement: u64, input: Input) -> u64 {
    match input {
        Input::Pressed { key: Key::Right, .. } => (R::decoded(displacement) * R::fraction(
            11,
            10,
        )).lesser(R::fraction(10, 1)).word(),
        Input::Pressed { key: Key::Left, .. } => (R::decoded(displacement) / R::fraction(
            11,
            10,
        )).greater(R::fraction(1, 10)).word(),
        _ => displacement,
    }
}

/// Whether an input changes the displacement.
pub open spec fn changes_displacement(input: Input) -> bool {
    input matches Input::Pressed { key, .. } && (key == Key::Right || key == Key::Left)
}

/// The shared state after an input.
pub open spec fn chosen<R: Real>(shared: SharedView, input: Input) -> SharedView {
    SharedView {
        cylinders: chosen_cylinders(shared.cylinders, input),
        displacement: chosen_displacement::<R>(shared.displacement, input),
        ..shared
    }
}

/// How far the throttle has followed the pedal after one more turn of the control loop.
pub open spec fn followed<R: Real>(pedal: Pedal<R>) -> R {
    pedal.actual_throttle + (pedal.target_throttle - pedal.actual_throttle) * R::fraction(15, 100)
}

impl<R: Real> Pedal<R> {
    /// A released pedal.
    pub fn new() -> (pedal: Self)
        ensures
            deterministic::<R>() ==> pedal == (Pedal {
                target_throttle: R::fraction(0, 1),
                actual_throttle: R::fraction(0, 1),
            }),
    {
        Pedal { target_throttle: R::ratio(0, 1), actual_throttle: R::ratio(0, 1) }
    }

    /// Does what an input asks for and returns whether it ends the program.
    pub fn handle(&mut self, shared: &mut SharedEngineState, input: Input) -> (quit: bool)
        ensures
            quit == quits(input),
            final(self).actual_throttle == old(self).actual_throttle,
            deterministic::<R>() ==> final(self).target_throttle == pedal_target(
                old(self).target_throttle,
                input,
            ),
            final(shared)@ == (SharedView {
                cylinders: chosen_cylinders(old(shared).cylinders, input),
                displacement: final(shared).displacement,
                ..old(shared)@
            }),
            !changes_displacement(input) ==> final(shared).displacement == old(
                shared,
            ).displacement,
            deterministic::<R>() ==> final(shared)@ == chosen::<R>(old(shared)@, input),
            old(shared)@.well_formed() ==> final(shared)@.well_formed(),
    {
        match input {
            Input::Idle => {
                self.target_throttle = R::ratio(0, 1);
                false
            },
            Input::Other => false,
            Input::Pressed { key, control } => match key {
                Key::Char(c) => {
                    if c == 'w' || c == 'W' {
                        self.target_throttle = R::ratio(1, 1);
                    }
                    c == 'q' || (c == 'c' && control)
                },
                Key::Up => {
                    if shared.cylinders < MAX_CYLINDERS {
                        shared.cylinders = shared.cylinders + 1;
                    }
                    false
                },
                Key::Down => {
                    if shared.cylinders > 1 {
                        shared.cylinders = shared.cylinders - 1;
                    }
                    false
                },
                Key::Right => {
                    let grown = R::from_bits(shared.displacement).mul(R::ratio(11, 10));
                    shared.displacement = grown.min(R::ratio(10, 1)).to_bits();
                    false
                },
                Key::Left => {
                    let shrunk = R::from_bits(shared.displacement).div(R::ratio(11, 10));
                    shared.displacement = shrunk.max(R::ratio(1, 10)).to_bits();
                    false
                },
                Key::Esc => true,
                Key::Other => false,
            },
        }
    }

    /// Lets the throttle follow the pedal and shares it.
    pub fn follow(&mut self, shared: &mut SharedEngineState)
        ensures
            final(self).target_throttle == old(self).target_throttle,
            deterministic::<R>() ==> final(self).actual_throttle == followed(*old(self)),
            final(shared)@ == (SharedView { throttle: final(shared).throttle, ..old(shared)@ }),
            deterministic::<R>() ==> final(shared).throttle == followed(*old(self)).word(),
    {
        let gap = self.target_throttle.sub(self.actual_throttle);
        self.actual_throttle = self.actual_throttle.add(gap.mul(R::ratio(15, 100)));
        shared.throttle = self.actual_throttle.to_bits();
    }

    /// One turn of the control loop: does what the input asks for and, unless it ends the
    /// program, lets the throttle follow. Returns whether it ends the program.
    pub fn turn(&mut self, shared: &mut SharedEngineState, input: Input) -> (quit: bool)
        ensures
            quit == quits(input),
            final(shared)@ == (SharedView {
                throttle: final(shared).throttle,
                cylinders: chosen_cylinders(old(shared).cylinders, input),
                displacement: final(shared).displacement,
                ..old(shared)@
            }),
            !changes_displacement(input) ==> final(shared).displacement == old(
                shared,
            ).displacement,
            quit ==> final(shared).throttle == old(shared).throttle,
            quit ==> final(self).actual_throttle == old(self).actual_throttle,
            old(shared)@.well_formed() ==> final(shared)@.well_formed(),
            deterministic::<R>() ==> {
                let pressed = Pedal {
                    target_throttle: pedal_target(old(self).target_throttle, input),
                    actual_throttle: old(self).actual_throttle,
                };
                let settings = chosen::<R>(old(shared)@, input);
                if quits(input) {
                    *final(self) == pressed && final(shared)@ == settings
                } else {
                    &&& *final(self) == Pedal {
                        actual_throttle: followed(pressed),
                        ..pressed
                    }
                    &&& final(shared)@ == SharedView {
                        throttle: followed(pressed).word(),
                        ..settings
                    }
                }
            },
    {
        let quit: bool = self.handle(shared, input);
        if !quit {
            self.follow(shared);
        }
        quit
    }
}

/// The cylinder count after a number of inputs.
pub open spec fn chosen_cylinders_after(cylinders: usize, inputs: Seq<Input>) -> usize
    decreases inputs.len(),
{
    if inputs.len() == 0 {
        cylinders
    } else {
        chosen_cylinders(chosen_cylinders_after(cylinders, inputs.drop_last()), inputs.last())
    }
}

/// Whatever keys are pressed, and in whatever order, the engine keeps a count of cylinders that
/// it can have.
pub proof fn law_cylinder_count_stays_in_range(cylinders: usize, inputs: Seq<Input>)
    requires
        1 <= cylinders <= MAX_CYLINDERS,
    ensures
        1 <= chosen_cylinders_after(cylinders, inputs) <= MAX_CYLINDERS,
    decreases inputs.len(),
{
    if inputs.len() > 0 {
        law_cylinder_count_stays_in_range(cylinders, inputs.drop_last());
    }
}

/// Down undoes up and up undoes down, except at the end of the range.
pub proof fn law_up_and_down_undo_each_other(cylinders: usize, control: bool)
    ensures
        ({
            let up = Input::Pressed { key: Key::Up, control };
            let down = Input::Pressed { key: Key::Down, control };
            &&& 1 <= cylinders < MAX_CYLINDERS ==> chosen_cylinders(
                chosen_cylinders(cylinders, up),
                down,
            ) == cylinders
            &&& 1 < cylinders <= MAX_CYLINDERS ==> chosen_cylinders(
                chosen_cylinders(cylinders, down),
                up,
            ) == cylinders
        }),
{
}

} // verus!
